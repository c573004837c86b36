use bit_set::{BitIdx, BitSet};

#[derive(Debug, PartialEq)]
struct Slot(u8);

impl Into<BitIdx> for Slot {
    fn into(self) -> BitIdx {
        BitIdx(self.0 as usize)
    }
}

impl From<BitIdx> for Slot {
    fn from(BitIdx(idx): BitIdx) -> Self {
        Slot(idx as u8)
    }
}

#[test]
fn from_iter_inserts_each_value() {
    let s = BitSet::from_iter(vec![Slot(9), Slot(2), Slot(200), Slot(2)]);
    let v: Vec<Slot> = s.iter().collect();
    assert_eq!(v, vec![Slot(2), Slot(9), Slot(200)]);
    assert_eq!(s.len(), 3);
    assert_eq!(s.get_ref().len(), 201);
}

#[test]
fn from_iter_of_nothing() {
    let s: BitSet<Slot> = BitSet::from_iter(Vec::new());
    assert!(s.is_empty());
    assert_eq!(s.get_ref().len(), 0);
}

#[test]
fn extend_adds_to_what_is_there() {
    let mut s: BitSet<usize> = BitSet::new();
    s.insert(1);
    s.extend(vec![5, 1, 3]);
    let v: Vec<usize> = s.iter().collect();
    assert_eq!(v, vec![1, 3, 5]);
    s.extend(Vec::new());
    assert_eq!(s.len(), 3);
}

#[test]
fn extend_equals_repeated_insert() {
    let values = vec![40usize, 7, 7, 0, 65];
    let mut by_extend: BitSet<usize> = BitSet::new();
    by_extend.extend(values.clone());
    let mut by_insert: BitSet<usize> = BitSet::new();
    for v in values {
        by_insert.insert(v);
    }
    assert!(by_extend == by_insert);
}
