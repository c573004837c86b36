use bit_set::BitSet;
use std::cmp::Ordering;

fn set_of(values: &[usize]) -> BitSet<usize> {
    BitSet::from_iter(values.to_vec())
}

#[test]
fn equal_sets() {
    assert!(set_of(&[1, 5]) == set_of(&[5, 1]));
    assert!(set_of(&[1, 5]) != set_of(&[1, 4]));
    assert!(set_of(&[]) == BitSet::<usize>::new());
}

#[test]
fn equality_is_that_of_the_storage() {
    let mut a = set_of(&[1, 5]);
    let b = set_of(&[1]);
    a.remove(5);
    assert!(a != b);
    a.shrink_to_fit();
    assert!(a == b);
    assert!(BitSet::<usize>::with_capacity(3) != BitSet::<usize>::new());
}

#[test]
fn order_is_lexicographic_over_the_bits() {
    let empty: BitSet<usize> = BitSet::new();
    assert!(empty < set_of(&[0]));
    assert!(set_of(&[1]) < set_of(&[0]));
    assert!(set_of(&[0]) > set_of(&[1]));
    assert!(set_of(&[0]) < set_of(&[0, 1]));
    assert!(set_of(&[0, 2]) < set_of(&[0, 1]));
    assert!(set_of(&[3]) <= set_of(&[3]));
    assert!(set_of(&[3]) >= set_of(&[3]));
    assert_eq!(set_of(&[1]).partial_cmp(&set_of(&[0])), Some(Ordering::Less));
    assert_eq!(set_of(&[0]).partial_cmp(&set_of(&[0])), Some(Ordering::Equal));
    assert_eq!(set_of(&[0]).partial_cmp(&empty), Some(Ordering::Greater));
    assert_eq!(set_of(&[1]).cmp(&set_of(&[0])), Ordering::Less);
    assert_eq!(set_of(&[2]).cmp(&set_of(&[2])), Ordering::Equal);
}

#[test]
fn a_pattern_comes_before_its_extensions() {
    let short = set_of(&[1]);
    let mut long = set_of(&[1, 9]);
    long.remove(9);
    assert!(short < long);
    assert!(long > short);
    assert_eq!(short.partial_cmp(&long), Some(Ordering::Less));
}

#[test]
fn clone_is_equal_and_independent() {
    let a = set_of(&[2, 70]);
    let mut b = a.clone();
    assert!(a == b);
    b.insert(3);
    assert!(a != b);
    assert!(!a.contains(3));
    assert!(b.contains(3));
    assert_eq!(a.len(), 2);
}

#[test]
fn default_is_the_empty_set() {
    let d: BitSet<usize> = Default::default();
    assert!(d.is_empty());
    assert!(d == BitSet::new());
    assert_eq!(d.get_ref().len(), 0);
}

fn bits_of(s: &BitSet<usize>) -> Vec<bool> {
    let storage = s.get_ref();
    (0..storage.len()).map(|i| storage.get(i) == Some(true)).collect()
}

fn lexicographic(left: &[bool], right: &[bool]) -> Ordering {
    let mut i = 0;
    loop {
        if i == left.len() && i == right.len() {
            return Ordering::Equal;
        }
        if i == left.len() {
            return Ordering::Less;
        }
        if i == right.len() {
            return Ordering::Greater;
        }
        if left[i] != right[i] {
            return if right[i] { Ordering::Less } else { Ordering::Greater };
        }
        i += 1;
    }
}

#[test]
fn order_and_equality_follow_the_bits() {
    let mut padded = set_of(&[2, 40]);
    padded.remove(40);
    let sets = vec![
        set_of(&[]),
        set_of(&[0]),
        set_of(&[1]),
        set_of(&[0, 1]),
        set_of(&[2]),
        padded,
        set_of(&[31, 32]),
        set_of(&[32]),
        set_of(&[0, 33]),
        BitSet::with_capacity(5),
    ];
    for a in &sets {
        for b in &sets {
            let expected = lexicographic(&bits_of(a), &bits_of(b));
            assert_eq!(a.partial_cmp(b), Some(expected));
            assert_eq!(a.cmp(b), expected);
            assert_eq!(a == b, bits_of(a) == bits_of(b));
            assert_eq!(a < b, expected == Ordering::Less);
            assert_eq!(a > b, expected == Ordering::Greater);
        }
    }
}
