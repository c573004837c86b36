use bit_set::{BitIdx, BitSet};

#[derive(Debug, PartialEq, Clone, Copy)]
enum Color {
    Red,
    Green,
    Blue,
}

impl Into<BitIdx> for Color {
    fn into(self) -> BitIdx {
        BitIdx(match self {
            Color::Red => 0,
            Color::Green => 1,
            Color::Blue => 2,
        })
    }
}

impl From<BitIdx> for Color {
    fn from(BitIdx(idx): BitIdx) -> Self {
        match idx {
            0 => Color::Red,
            1 => Color::Green,
            2 => Color::Blue,
            _ => panic!("no color at {}", idx),
        }
    }
}

#[test]
fn new_set_is_empty() {
    let s: BitSet<usize> = BitSet::new();
    assert!(s.is_empty());
    assert_eq!(s.len(), 0);
    assert!(!s.contains(0));
    assert_eq!(s.get_ref().len(), 0);
}

#[test]
fn insert_then_contains() {
    let mut s = BitSet::new();
    assert!(s.insert(Color::Green));
    assert!(s.contains(Color::Green));
    assert!(!s.contains(Color::Red));
    assert!(!s.contains(Color::Blue));
    assert_eq!(s.len(), 1);
    assert!(!s.is_empty());
}

#[test]
fn insert_twice_reports_present() {
    let mut s = BitSet::new();
    assert!(s.insert(Color::Blue));
    assert!(!s.insert(Color::Blue));
    assert_eq!(s.len(), 1);
    assert!(s.contains(Color::Blue));
}

#[test]
fn insert_grows_storage_to_the_index() {
    let mut s: BitSet<usize> = BitSet::new();
    assert!(s.insert(70));
    assert_eq!(s.get_ref().len(), 71);
    assert!(s.insert(3));
    assert_eq!(s.get_ref().len(), 71);
    assert!(s.contains(70));
    assert!(s.contains(3));
    assert!(!s.contains(69));
    assert!(!s.contains(71));
    assert!(!s.contains(1000));
    assert_eq!(s.len(), 2);
}

#[test]
fn remove_present_and_absent() {
    let mut s = BitSet::new();
    s.insert(Color::Red);
    s.insert(Color::Blue);
    assert_eq!(s.len(), 2);
    assert!(s.remove(Color::Red));
    assert_eq!(s.len(), 1);
    assert!(!s.contains(Color::Red));
    assert!(!s.remove(Color::Red));
    assert_eq!(s.len(), 1);
    assert!(!s.remove(Color::Green));
    assert_eq!(s.len(), 1);
    assert!(s.contains(Color::Blue));
}

#[test]
fn remove_keeps_storage_length() {
    let mut s: BitSet<usize> = BitSet::new();
    s.insert(9);
    assert!(s.remove(9));
    assert_eq!(s.get_ref().len(), 10);
    assert!(s.is_empty());
    assert!(!s.remove(500));
    assert_eq!(s.get_ref().len(), 10);
}

#[test]
fn len_counts_set_bits_across_words() {
    let mut s: BitSet<usize> = BitSet::new();
    for i in [0usize, 31, 32, 33, 63, 64, 200] {
        assert!(s.insert(i));
    }
    assert_eq!(s.len(), 7);
    assert!(s.remove(32));
    assert_eq!(s.len(), 6);
}

#[test]
fn clear_empties_and_is_idempotent() {
    let mut s: BitSet<usize> = BitSet::new();
    s.clear();
    assert!(s.is_empty());
    assert_eq!(s.len(), 0);
    s.insert(4);
    s.insert(40);
    s.clear();
    assert!(s.is_empty());
    assert_eq!(s.len(), 0);
    assert!(!s.contains(4));
    assert!(!s.contains(40));
    assert_eq!(s.get_ref().len(), 41);
    s.clear();
    assert!(s.is_empty());
    assert_eq!(s.get_ref().len(), 41);
}

#[test]
fn round_trip_of_every_color() {
    for c in [Color::Red, Color::Green, Color::Blue] {
        let idx: BitIdx = c.into();
        assert_eq!(Color::from(idx), c);
    }
}

#[test]
fn plain_index_conversions() {
    let idx: BitIdx = 7usize.into();
    assert_eq!(idx, BitIdx(7));
    let n = 9usize;
    let by_ref: BitIdx = (&n).into();
    assert_eq!(by_ref, BitIdx(9));
    assert_eq!(usize::from(BitIdx(12)), 12);
    let raw: &usize = BitIdx(5).as_ref();
    assert_eq!(*raw, 5);
    for v in [0usize, 1, 63, 64, usize::MAX] {
        let there: BitIdx = v.into();
        assert_eq!(usize::from(there), v);
    }
}

#[test]
fn borrowed_indices_as_elements() {
    let values = [2usize, 5];
    let mut s: BitSet<&usize> = BitSet::new();
    assert!(s.insert(&values[0]));
    assert!(s.insert(&values[1]));
    assert!(s.contains(&2));
    assert!(!s.contains(&3));
    assert_eq!(s.len(), 2);
}

#[test]
fn index_level_operations() {
    let mut s: BitSet<Color> = BitSet::new();
    assert!(s.insert_index(BitIdx(1)));
    assert!(!s.insert_index(BitIdx(1)));
    assert!(s.contains_index(BitIdx(1)));
    assert!(!s.contains_index(BitIdx(0)));
    assert!(s.contains(Color::Green));
    assert!(s.insert(Color::Blue));
    assert!(s.contains_index(BitIdx(2)));
    assert!(s.remove_index(BitIdx(2)));
    assert!(!s.remove_index(BitIdx(2)));
    assert!(!s.contains(Color::Blue));
    assert_eq!(s.len(), 1);
}
