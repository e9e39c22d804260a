//! Factorials, and the value of a counter array read as factorial-base digits.
//!
//! Heap's algorithm, in its iterative form, keeps one counter per position of
//! the buffer.  Reading counter `j` as a digit of weight `j!` turns the whole
//! counter array into an odometer that counts the permutations produced so
//! far.  The lemmas here give the facts about that odometer which the
//! generator's invariants rest on.

use vstd::prelude::*;

verus! {

/// `fact(n)` is `n!`, the number of permutations of `n` distinct positions.
pub open spec fn fact(n: nat) -> nat
    decreases n,
{
    if n == 0 {
        1
    } else {
        n * fact((n - 1) as nat)
    }
}

pub proof fn lemma_fact_pos(n: nat)
    ensures
        fact(n) >= 1,
    decreases n,
{
    if n > 0 {
        lemma_fact_pos((n - 1) as nat);
        assert(n * fact((n - 1) as nat) >= 1 * fact((n - 1) as nat)) by (nonlinear_arith)
            requires
                n >= 1,
                fact((n - 1) as nat) >= 0,
        ;
    }
}

pub proof fn lemma_fact_monotone(m: nat, n: nat)
    requires
        m <= n,
    ensures
        fact(m) <= fact(n),
    decreases n,
{
    if m < n {
        lemma_fact_monotone(m, (n - 1) as nat);
        lemma_fact_pos((n - 1) as nat);
        assert(1 * fact((n - 1) as nat) <= n * fact((n - 1) as nat)) by (nonlinear_arith)
            requires
                n >= 1,
                fact((n - 1) as nat) >= 0,
        ;
    }
}

/// The value of the first `k` entries of `c`, read as factorial-base digits:
/// `c[0]*0! + c[1]*1! + ... + c[k-1]*(k-1)!`.
pub open spec fn digits_value(c: Seq<nat>, k: int) -> nat
    decreases k,
{
    if k <= 0 {
        0
    } else {
        digits_value(c, k - 1) + c[k - 1] * fact((k - 1) as nat)
    }
}

/// The value only depends on the digits it reads.
pub proof fn lemma_digits_value_agree(c1: Seq<nat>, c2: Seq<nat>, k: int)
    requires
        forall|j: int| 0 <= j < k ==> c1[j] == c2[j],
    ensures
        digits_value(c1, k) == digits_value(c2, k),
    decreases k,
{
    if k > 0 {
        lemma_digits_value_agree(c1, c2, k - 1);
    }
}

/// Overwriting digit `i` changes the value by the difference at that digit,
/// weighted by `i!`.
pub proof fn lemma_digits_value_update(c: Seq<nat>, k: int, i: int, v: nat)
    requires
        0 <= i < k <= c.len(),
    ensures
        digits_value(c.update(i, v), k) + c[i] * fact(i as nat) == digits_value(c, k) + v * fact(
            i as nat,
        ),
    decreases k,
{
    if i == k - 1 {
        lemma_digits_value_agree(c.update(i, v), c, k - 1);
        assert(c.update(i, v)[k - 1] == v);
    } else {
        lemma_digits_value_update(c, k - 1, i, v);
        assert(c.update(i, v)[k - 1] == c[k - 1]);
    }
}

/// All-zero digits are worth zero.
pub proof fn lemma_digits_value_zero(c: Seq<nat>, k: int)
    requires
        forall|j: int| 0 <= j < k ==> c[j] == 0,
    ensures
        digits_value(c, k) == 0,
    decreases k,
{
    if k > 0 {
        lemma_digits_value_zero(c, k - 1);
    }
}

} // verus!
