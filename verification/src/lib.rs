//! Lazy generation of all permutations of a finite ordered collection.
//!
//! A [`Permesan`] owns one working buffer and advances it in place with
//! Heap's algorithm: each call of [`Permesan::next`] either hands back an
//! independent copy of the next permutation, or signals that all `n!` of
//! them have been produced.  Successive permutations differ by exactly one
//! transposition, and every value handed out is a rearrangement of the
//! original input.

use vstd::prelude::*;

pub mod math;

use crate::math::{digits_value, fact, lemma_digits_value_update, lemma_digits_value_zero,
    lemma_fact_monotone};

use vstd::pervasive::VecAdditionalExecFns;

verus! {

/// `s` with the entries at `x` and `y` exchanged.
pub open spec fn swap_seq<T>(s: Seq<T>, x: int, y: int) -> Seq<T> {
    s.update(x, s[y]).update(y, s[x])
}

/// `b` is `a` with exactly two distinct positions exchanged.
pub open spec fn is_transposition<T>(a: Seq<T>, b: Seq<T>) -> bool {
    exists|x: int, y: int| 0 <= x < y < a.len() && b == #[trigger] swap_seq(a, x, y)
}

/// One advance of Heap's algorithm, read from counter state `c` and cursor
/// `i`: the buffer and counters after the next single swap.  Which pair is
/// swapped is the algorithm's defining rule: position `i` with position `0`
/// when `i` is even, with position `c[i]` when `i` is odd.
pub open spec fn heap_step<T>(arr: Seq<T>, c: Seq<nat>, i: int) -> (Seq<T>, Seq<nat>)
    decreases c.len() - i,
{
    if i < 0 || i >= c.len() {
        (arr, c)
    } else if c[i] < i {
        if i % 2 == 0 {
            (swap_seq(arr, 0, i), c.update(i, (c[i] + 1) as nat))
        } else {
            (swap_seq(arr, c[i] as int, i), c.update(i, (c[i] + 1) as nat))
        }
    } else {
        heap_step(arr, c.update(i, 0), i + 1)
    }
}

/// The generator's abstract state after `m` productions: the working buffer
/// and the counters.  The first production hands out the input order without
/// moving anything, so the state only starts stepping from the second
/// production on.
pub open spec fn heap_state<T>(input: Seq<T>, m: nat) -> (Seq<T>, Seq<nat>)
    decreases m,
{
    if m <= 1 {
        (input, Seq::new(input.len(), |j: int| 0nat))
    } else {
        let (arr, c) = heap_state(input, (m - 1) as nat);
        heap_step(arr, c, 0)
    }
}

/// The `m`-th permutation (0-indexed) that the generator produces for
/// `input`: a pure function of the input alone, which pins the whole
/// production order down.
pub open spec fn nth_permutation<T>(input: Seq<T>, m: nat) -> Seq<T> {
    heap_state(input, (m + 1) as nat).0
}

/// Swapping two entries of a sequence leaves its multiset of elements
/// unchanged.
pub proof fn lemma_swap_seq_multiset<T>(s: Seq<T>, x: int, y: int)
    requires
        0 <= x < y < s.len(),
    ensures
        swap_seq(s, x, y).to_multiset() == s.to_multiset(),
{
    broadcast use vstd::seq_lib::group_to_multiset_ensures;
    broadcast use vstd::multiset::group_multiset_axioms;

    let s1 = s.update(x, s[y]);
    assert(s.contains(s[x]));
    assert(s1.contains(s1[y]));
    assert(s1[y] == s[y]);
    assert(swap_seq(s, x, y).to_multiset() =~= s.to_multiset());
}

/// A transposition only rearranges: the two sequences hold the same
/// elements, with the same multiplicities.
pub proof fn lemma_transposition_multiset<T>(a: Seq<T>, b: Seq<T>)
    requires
        is_transposition(a, b),
    ensures
        a.to_multiset() == b.to_multiset(),
        a.len() == b.len(),
{
    let (x, y) = choose|x: int, y: int| 0 <= x < y < a.len() && b == #[trigger] swap_seq(a, x, y);
    lemma_swap_seq_multiset(a, x, y);
}

/// One advance of Heap's algorithm only rearranges the buffer.
pub proof fn lemma_heap_step_multiset<T>(arr: Seq<T>, c: Seq<nat>, i: int)
    requires
        c.len() == arr.len(),
    ensures
        heap_step(arr, c, i).0.to_multiset() == arr.to_multiset(),
        heap_step(arr, c, i).0.len() == arr.len(),
        heap_step(arr, c, i).1.len() == c.len(),
    decreases c.len() - i,
{
    if i < 0 || i >= c.len() {
    } else if c[i] < i {
        let x: int = if i % 2 == 0 {
            0
        } else {
            c[i] as int
        };
        lemma_swap_seq_multiset(arr, x, i);
    } else {
        lemma_heap_step_multiset(arr, c.update(i, 0), i + 1);
    }
}

proof fn lemma_heap_state_multiset<T>(input: Seq<T>, m: nat)
    ensures
        heap_state(input, m).0.to_multiset() == input.to_multiset(),
        heap_state(input, m).0.len() == input.len(),
        heap_state(input, m).1.len() == input.len(),
    decreases m,
{
    if m > 1 {
        lemma_heap_state_multiset(input, (m - 1) as nat);
        lemma_heap_step_multiset(
            heap_state(input, (m - 1) as nat).0,
            heap_state(input, (m - 1) as nat).1,
            0,
        );
    }
}

/// Every produced permutation holds exactly the input's elements: whatever
/// `m`, the `m`-th production is a rearrangement of `input`.
pub proof fn lemma_nth_permutation_multiset<T>(input: Seq<T>, m: nat)
    ensures
        nth_permutation(input, m).to_multiset() == input.to_multiset(),
        nth_permutation(input, m).len() == input.len(),
{
    lemma_heap_state_multiset(input, (m + 1) as nat);
}

/// As long as the counters, read as factorial-base digits together with the
/// cursor, are worth less than `n!`, the advance always finds a digit to
/// bump: it performs one transposition and the counters' worth grows by one.
proof fn lemma_heap_step_fires<T>(arr: Seq<T>, c: Seq<nat>, i: int)
    requires
        c.len() == arr.len(),
        0 <= i <= c.len(),
        forall|j: int| 0 <= j < i ==> c[j] == 0,
        forall|j: int| 0 <= j < c.len() ==> c[j] <= j,
        digits_value(c, c.len() as int) + fact(i as nat) < fact(c.len()),
    ensures
        is_transposition(arr, heap_step(arr, c, i).0),
        heap_step(arr, c, i).1.len() == c.len(),
        forall|j: int| 0 <= j < c.len() ==> heap_step(arr, c, i).1[j] <= j,
        digits_value(heap_step(arr, c, i).1, c.len() as int) == digits_value(c, c.len() as int)
            + fact(i as nat),
    decreases c.len() - i,
{
    let n = c.len() as int;
    if i == n {
        assert(false);
    } else if c[i] < i {
        let x: int = if i % 2 == 0 {
            0
        } else {
            c[i] as int
        };
        assert(heap_step(arr, c, i).0 == swap_seq(arr, x, i));
        assert(is_transposition(arr, heap_step(arr, c, i).0));
        lemma_digits_value_update(c, n, i, (c[i] + 1) as nat);
        assert((c[i] + 1) * fact(i as nat) == c[i] * fact(i as nat) + fact(i as nat))
            by (nonlinear_arith);
    } else {
        lemma_digits_value_update(c, n, i, 0);
        assert((i + 1) * fact(i as nat) == i * fact(i as nat) + fact(i as nat))
            by (nonlinear_arith);
        assert(fact((i + 1) as nat) == (i + 1) * fact(i as nat));
        lemma_heap_step_fires(arr, c.update(i, 0), i + 1);
    }
}

proof fn lemma_heap_state_wf<T>(input: Seq<T>, m: nat)
    requires
        1 <= m <= fact(input.len()),
    ensures
        heap_state(input, m).0.len() == input.len(),
        heap_state(input, m).1.len() == input.len(),
        forall|j: int| 0 <= j < input.len() ==> heap_state(input, m).1[j] <= j,
        digits_value(heap_state(input, m).1, input.len() as int) == m - 1,
        m >= 2 ==> is_transposition(heap_state(input, (m - 1) as nat).0, heap_state(input, m).0),
    decreases m,
{
    if m == 1 {
        lemma_digits_value_zero(heap_state(input, m).1, input.len() as int);
    } else {
        lemma_heap_state_wf(input, (m - 1) as nat);
        lemma_heap_step_fires(
            heap_state(input, (m - 1) as nat).0,
            heap_state(input, (m - 1) as nat).1,
            0,
        );
    }
}

/// Single-step adjacency: while the production sequence is still running,
/// each produced permutation differs from its immediate predecessor by
/// exactly one transposition.
pub proof fn lemma_successive_productions_transpose<T>(input: Seq<T>, m: nat)
    requires
        m + 2 <= fact(input.len()),
    ensures
        is_transposition(nth_permutation(input, m), nth_permutation(input, (m + 1) as nat)),
{
    lemma_heap_state_wf(input, (m + 2) as nat);
}

/// A lazy generator of the permutations of its input, in the order of
/// Heap's algorithm.
pub struct Permesan<T> {
    num_perm: usize,
    total_perm: usize,
    c: Vec<usize>,
    arr: Vec<T>,
    i: usize,
    init: Ghost<Seq<T>>,
}

impl<T: Copy> Permesan<T> {
    /// The input collection, in its original order.
    pub closed spec fn input(&self) -> Seq<T> {
        self.init@
    }

    /// The working buffer: the most recently produced permutation, or the
    /// input order before anything has been produced.
    pub closed spec fn buffer(&self) -> Seq<T> {
        self.arr@
    }

    /// The per-position counters of Heap's algorithm, as plain naturals.
    pub closed spec fn counters(&self) -> Seq<nat> {
        self.c@.map_values(|v: usize| v as nat)
    }

    /// How many permutations have been produced so far.
    pub closed spec fn emitted(&self) -> nat {
        self.num_perm as nat
    }

    /// How many permutations exist in all: the factorial of the input length.
    pub closed spec fn total(&self) -> nat {
        self.total_perm as nat
    }

    /// The generator's internal invariant, established by [`Permesan::new`]
    /// and preserved by [`Permesan::next`].
    pub closed spec fn wf(&self) -> bool {
        &&& self.c@.len() == self.arr@.len()
        &&& self.arr@.len() == self.init@.len()
        &&& self.total_perm == fact(self.arr@.len())
        &&& self.num_perm <= self.total_perm
        &&& self.i == 0
        &&& forall|j: int| 0 <= j < self.c@.len() ==> #[trigger] self.c@[j] <= j
        &&& digits_value(self.counters(), self.c@.len() as int) == if self.num_perm == 0 {
            0
        } else {
            self.num_perm - 1
        }
        &&& self.num_perm == 0 ==> self.arr@ == self.init@
        &&& self.num_perm == 0 ==> forall|j: int| 0 <= j < self.c@.len() ==> #[trigger] self.c@[j]
            == 0
        &&& self.num_perm >= 1 ==> (self.arr@, self.counters()) == heap_state(
            self.init@,
            self.num_perm as nat,
        )
        &&& self.arr@.to_multiset() == self.init@.to_multiset()
    }

    /// Builds a generator over `col`.  The elements are taken in their given
    /// order; the first permutation produced is that order itself.  The input
    /// must be short enough for `n!` to fit the counting type.
    pub fn new(col: Vec<T>) -> (g: Self)
        requires
            fact(col@.len()) <= usize::MAX,
        ensures
            g.wf(),
            g.emitted() == 0,
            g.total() == fact(col@.len()),
            g.input() == col@,
            g.buffer() == col@,
            g.counters().len() == col@.len(),
            forall|j: int| 0 <= j < col@.len() ==> g.counters()[j] == 0,
    {
        let n: usize = col.len();
        let mut total: usize = 1;
        let mut k: usize = 0;
        while k < n
            invariant
                k <= n,
                total == fact(k as nat),
                fact(n as nat) <= usize::MAX,
            decreases n - k,
        {
            proof {
                lemma_fact_monotone((k + 1) as nat, n as nat);
                assert(fact((k + 1) as nat) == (k + 1) * fact(k as nat));
                assert(total * (k + 1) == (k + 1) * total) by (nonlinear_arith);
            }
            k = k + 1;
            total = total * k;
        }
        let mut c: Vec<usize> = Vec::new();
        while c.len() < n
            invariant
                c@.len() <= n,
                forall|j: int| 0 <= j < c@.len() ==> #[trigger] c@[j] == 0,
            decreases n - c@.len(),
        {
            c.push(0);
        }
        let ghost init_seq = col@;
        let g = Permesan { num_perm: 0, total_perm: total, c, arr: col, i: 0, init: Ghost(init_seq) };
        proof {
            lemma_digits_value_zero(g.counters(), g.c@.len() as int);
        }
        g
    }

    /// Advances the working buffer in place to the next permutation of
    /// Heap's order and counts it; the very first production leaves the
    /// buffer in its input order.
    fn generate(&mut self)
        requires
            old(self).wf(),
            old(self).emitted() < old(self).total(),
        ensures
            final(self).wf(),
            final(self).emitted() == old(self).emitted() + 1,
            final(self).total() == old(self).total(),
            final(self).input() == old(self).input(),
            old(self).emitted() == 0 ==> final(self).buffer() == old(self).buffer(),
            old(self).emitted() >= 1 ==> is_transposition(old(self).buffer(), final(self).buffer()),
    {
        if self.num_perm == 0 {
            self.num_perm = self.num_perm + 1;
            proof {
                assert(self.counters() =~= Seq::new(self.init@.len(), |j: int| 0nat));
            }
            return;
        }
        let n: usize = self.arr.len();
        while self.i < n
            invariant
                self.arr@.len() == n,
                self.c@.len() == n,
                self.i <= n,
                self.num_perm == old(self).num_perm,
                self.total_perm == old(self).total_perm,
                self.arr@ == old(self).arr@,
                self.init == old(self).init,
                self.arr@.len() == self.init@.len(),
                self.arr@.to_multiset() == self.init@.to_multiset(),
                1 <= self.num_perm < self.total_perm,
                self.total_perm == fact(n as nat),
                forall|j: int| 0 <= j < self.i ==> #[trigger] self.c@[j] == 0,
                forall|j: int| 0 <= j < n ==> #[trigger] self.c@[j] <= j,
                digits_value(self.counters(), n as int) + fact(self.i as nat) == self.num_perm,
                heap_step(old(self).arr@, old(self).counters(), 0) == heap_step(
                    self.arr@,
                    self.counters(),
                    self.i as int,
                ),
                (old(self).arr@, old(self).counters()) == heap_state(
                    self.init@,
                    self.num_perm as nat,
                ),
            decreases n - self.i,
        {
            let idx: usize = self.i;
            let ci: usize = self.c[idx];
            if ci < idx {
                let ghost pre = *self;
                let x: usize = if idx % 2 == 0 {
                    0
                } else {
                    ci
                };
                let ax = self.arr[x];
                let ay = self.arr[idx];
                self.arr.set(x, ay);
                self.arr.set(idx, ax);
                self.c.set(idx, ci + 1);
                self.num_perm = self.num_perm + 1;
                self.i = 0;
                proof {
                    assert(self.counters() =~= pre.counters().update(idx as int, (ci + 1) as nat));
                    assert(self.arr@ =~= swap_seq(pre.arr@, x as int, idx as int));
                    lemma_digits_value_update(pre.counters(), n as int, idx as int, (ci + 1) as nat);
                    assert((ci + 1) * fact(idx as nat) == ci * fact(idx as nat) + fact(idx as nat))
                        by (nonlinear_arith);
                    assert(heap_step(pre.arr@, pre.counters(), idx as int) == (
                        self.arr@,
                        self.counters(),
                    ));
                    lemma_swap_seq_multiset(pre.arr@, x as int, idx as int);
                    assert(self.arr@ == swap_seq(pre.arr@, x as int, idx as int));
                    assert(self.arr@.to_multiset() == pre.arr@.to_multiset());
                    assert(self.arr@.len() == pre.arr@.len());
                    assert(is_transposition(pre.arr@, self.arr@));
                    assert(heap_state(self.init@, (pre.num_perm + 1) as nat) == heap_step(
                        heap_state(self.init@, pre.num_perm as nat).0,
                        heap_state(self.init@, pre.num_perm as nat).1,
                        0,
                    ));
                    assert((self.arr@, self.counters()) == heap_state(
                        self.init@,
                        self.num_perm as nat,
                    ));
                }
                return;
            } else {
                let ghost pre = *self;
                self.c.set(idx, 0);
                self.i = idx + 1;
                proof {
                    assert(self.counters() =~= pre.counters().update(idx as int, 0));
                    lemma_digits_value_update(pre.counters(), n as int, idx as int, 0);
                    assert((idx + 1) * fact(idx as nat) == idx * fact(idx as nat) + fact(idx as nat))
                        by (nonlinear_arith);
                    assert(fact((idx + 1) as nat) == (idx + 1) * fact(idx as nat));
                    assert(heap_step(self.arr@, pre.counters(), idx as int) == heap_step(
                        self.arr@,
                        self.counters(),
                        idx + 1,
                    ));
                }
            }
        }
        proof {
            // The cursor can only run off the end once every counter is
            // saturated, i.e. once the counters are worth at least
            // `fact(n) - 1`; the loop invariant then puts `num_perm` at or
            // above `total_perm`, against this function's precondition.
            assert(false);
        }
    }

    /// An owned copy of the working buffer, independent of the generator.
    fn snapshot(&self) -> (r: Vec<T>)
        ensures
            r@ == self.arr@,
    {
        let mut r: Vec<T> = Vec::new();
        let mut j: usize = 0;
        while j < self.arr.len()
            invariant
                j <= self.arr@.len(),
                r@ == self.arr@.subrange(0, j as int),
            decreases self.arr@.len() - j,
        {
            let e = self.arr[j];
            r.push(e);
            proof {
                assert(self.arr@.subrange(0, j as int + 1) =~= self.arr@.subrange(
                    0,
                    j as int,
                ).push(self.arr@[j as int]));
            }
            j = j + 1;
        }
        proof {
            assert(self.arr@.subrange(0, self.arr@.len() as int) =~= self.arr@);
        }
        r
    }

    /// Produces the next permutation as an independent copy, or returns
    /// `None` permanently once all `total()` permutations have been
    /// produced.  The first production is the input order itself; every
    /// later one is the previous buffer with exactly one pair of positions
    /// swapped, the pair that Heap's algorithm picks (`heap_step`).
    pub fn next(&mut self) -> (r: Option<Vec<T>>)
        requires
            old(self).wf(),
        ensures
            final(self).wf(),
            final(self).total() == old(self).total(),
            final(self).input() == old(self).input(),
            r is Some <==> old(self).emitted() < old(self).total(),
            r is None ==> *final(self) == *old(self),
            r is Some ==> final(self).emitted() == old(self).emitted() + 1,
            r matches Some(p) ==> p@ == final(self).buffer(),
            r matches Some(p) ==> p@ == nth_permutation(old(self).input(), old(self).emitted()),
            r matches Some(p) ==> p@.to_multiset() == old(self).input().to_multiset(),
            old(self).emitted() == 0 ==> (r matches Some(p) ==> p@ == old(self).input()),
            old(self).emitted() >= 1 && r is Some ==> is_transposition(
                old(self).buffer(),
                final(self).buffer(),
            ),
    {
        if self.num_perm == self.total_perm {
            None
        } else {
            self.generate();
            Some(self.snapshot())
        }
    }

    /// The documented state invariants, over the public model: the produced
    /// count never passes the total, the total is the factorial of the input
    /// length, and the buffer always holds a rearrangement of the input —
    /// the input order itself before the first production.
    pub proof fn lemma_invariants(&self)
        requires
            self.wf(),
        ensures
            self.emitted() <= self.total(),
            self.total() == fact(self.input().len()),
            self.buffer().len() == self.input().len(),
            self.counters().len() == self.input().len(),
            self.buffer().to_multiset() == self.input().to_multiset(),
            self.emitted() == 0 ==> self.buffer() == self.input(),
            self.emitted() >= 1 ==> (self.buffer(), self.counters()) == heap_state(
                self.input(),
                self.emitted(),
            ),
            self.emitted() >= 1 ==> self.buffer() == nth_permutation(
                self.input(),
                (self.emitted() - 1) as nat,
            ),
    {
    }
}

} // verus!
