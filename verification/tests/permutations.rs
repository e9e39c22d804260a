use permesan::Permesan;

#[test]
fn empty_vector() {
    let empty: Vec<i32> = Vec::new();
    let mut v = Permesan::new(empty);

    assert_eq!(v.next(), Some(vec![]));
    assert_eq!(v.next(), None);
}

#[test]
fn basic() {
    let mut v = Permesan::new(vec![1, 2, 3]);

    assert_eq!(v.next(), Some(vec![1, 2, 3]));
    assert_eq!(v.next(), Some(vec![2, 1, 3]));
    assert_eq!(v.next(), Some(vec![3, 1, 2]));
}

#[test]
fn advanced() {
    let mut v = Permesan::new(vec![1, 2, 3, 4]);

    assert_eq!(v.next(), Some(vec![1, 2, 3, 4]));
    assert_eq!(v.next(), Some(vec![2, 1, 3, 4]));
    assert_eq!(v.next(), Some(vec![3, 1, 2, 4]));
    assert_eq!(v.next(), Some(vec![1, 3, 2, 4]));
    assert_eq!(v.next(), Some(vec![2, 3, 1, 4]));
    assert_eq!(v.next(), Some(vec![3, 2, 1, 4]));
    assert_eq!(v.next(), Some(vec![4, 2, 1, 3]));
    assert_eq!(v.next(), Some(vec![2, 4, 1, 3]));
    assert_eq!(v.next(), Some(vec![1, 4, 2, 3]));
    assert_eq!(v.next(), Some(vec![4, 1, 2, 3]));
    assert_eq!(v.next(), Some(vec![2, 1, 4, 3]));
    assert_eq!(v.next(), Some(vec![1, 2, 4, 3]));
    assert_eq!(v.next(), Some(vec![1, 3, 4, 2]));
    assert_eq!(v.next(), Some(vec![3, 1, 4, 2]));
    assert_eq!(v.next(), Some(vec![4, 1, 3, 2]));
    assert_eq!(v.next(), Some(vec![1, 4, 3, 2]));
    assert_eq!(v.next(), Some(vec![3, 4, 1, 2]));
    assert_eq!(v.next(), Some(vec![4, 3, 1, 2]));
    assert_eq!(v.next(), Some(vec![4, 3, 2, 1]));
    assert_eq!(v.next(), Some(vec![3, 4, 2, 1]));
    assert_eq!(v.next(), Some(vec![2, 4, 3, 1]));
    assert_eq!(v.next(), Some(vec![4, 2, 3, 1]));
    assert_eq!(v.next(), Some(vec![3, 2, 4, 1]));
    assert_eq!(v.next(), Some(vec![2, 3, 4, 1]));
    assert_eq!(v.next(), None);
    assert_eq!(v.next(), None);
}

#[test]
fn collect_vector() {
    let v = vec![1, 2, 3];
    let mut gen = Permesan::new(v);
    let mut perms: Vec<Vec<i32>> = Vec::new();
    while let Some(p) = gen.next() {
        perms.push(p);
    }

    let sol = vec![
        vec![1, 2, 3],
        vec![2, 1, 3],
        vec![3, 1, 2],
        vec![1, 3, 2],
        vec![2, 3, 1],
        vec![3, 2, 1],
    ];

    assert_eq!(perms, sol);
}

#[test]
fn single_element() {
    let mut v = Permesan::new(vec!["x"]);

    assert_eq!(v.next(), Some(vec!["x"]));
    assert_eq!(v.next(), None);
    assert_eq!(v.next(), None);
}

#[test]
fn exhaustion_is_permanent() {
    let mut v = Permesan::new(vec![7u8, 8u8]);

    assert_eq!(v.next(), Some(vec![7, 8]));
    assert_eq!(v.next(), Some(vec![8, 7]));
    assert_eq!(v.next(), None);
    for _ in 0..10 {
        assert_eq!(v.next(), None);
    }
}

#[test]
fn count_law_five_elements() {
    let mut v = Permesan::new(vec![1, 2, 3, 4, 5]);
    let mut produced = 0usize;
    while let Some(p) = v.next() {
        assert_eq!(p.len(), 5);
        produced += 1;
    }

    assert_eq!(produced, 120);
    assert_eq!(v.next(), None);
}

#[test]
fn coverage_three_elements() {
    let mut v = Permesan::new(vec![1, 2, 3]);
    let mut perms: Vec<Vec<i32>> = Vec::new();
    while let Some(p) = v.next() {
        perms.push(p);
    }

    assert_eq!(perms.len(), 6);
    for a in 0..perms.len() {
        for b in 0..a {
            assert_ne!(perms[a], perms[b]);
        }
    }
    let expected = vec![
        vec![1, 2, 3],
        vec![1, 3, 2],
        vec![2, 1, 3],
        vec![2, 3, 1],
        vec![3, 1, 2],
        vec![3, 2, 1],
    ];
    for want in &expected {
        assert!(perms.contains(want));
    }
}

#[test]
fn successive_outputs_differ_by_one_swap() {
    let mut v = Permesan::new(vec![10, 20, 30, 40]);
    let mut prev = v.next().unwrap();
    while let Some(cur) = v.next() {
        let mut changed: Vec<usize> = Vec::new();
        for k in 0..prev.len() {
            if prev[k] != cur[k] {
                changed.push(k);
            }
        }
        assert_eq!(changed.len(), 2);
        let (a, b) = (changed[0], changed[1]);
        assert_eq!(prev[a], cur[b]);
        assert_eq!(prev[b], cur[a]);
        prev = cur;
    }
}

#[test]
fn returned_value_does_not_alias_state() {
    let mut v = Permesan::new(vec![1, 2, 3]);
    let mut first = v.next().unwrap();
    let second = v.next().unwrap();

    first[0] = 99;
    first[1] = 98;

    assert_eq!(second, vec![2, 1, 3]);
    assert_eq!(v.next(), Some(vec![3, 1, 2]));
    assert_eq!(v.next(), Some(vec![1, 3, 2]));
    assert_eq!(v.next(), Some(vec![2, 3, 1]));
    assert_eq!(v.next(), Some(vec![3, 2, 1]));
    assert_eq!(v.next(), None);
}
