use bit_set::BitSet;
use bit_vec::BitVec;

#[test]
fn from_bytes_reads_most_significant_bit_first() {
    let s: BitSet<usize> = BitSet::from_bytes(&[0b10100000, 0b00010010]);
    let v: Vec<usize> = s.iter().collect();
    assert_eq!(v, vec![0, 2, 11, 14]);
    assert_eq!(s.len(), 4);
    assert_eq!(s.get_ref().len(), 16);
}

#[test]
fn from_bytes_across_a_word_boundary() {
    let s: BitSet<usize> = BitSet::from_bytes(&[0x01, 0, 0, 0x80, 0x40]);
    let v: Vec<usize> = s.iter().collect();
    assert_eq!(v, vec![7, 24, 33]);
    assert_eq!(s.get_ref().len(), 40);
}

#[test]
fn from_no_bytes() {
    let s: BitSet<usize> = BitSet::from_bytes(&[]);
    assert!(s.is_empty());
    assert_eq!(s.get_ref().len(), 0);
}

#[test]
fn from_bit_vec_takes_the_set_bits() {
    let mut bits = BitVec::from_elem(10, false);
    bits.set(2, true);
    bits.set(9, true);
    let s: BitSet<usize> = BitSet::from_bit_vec(bits);
    let v: Vec<usize> = s.iter().collect();
    assert_eq!(v, vec![2, 9]);
    assert_eq!(s.get_ref().len(), 10);
}

#[test]
fn into_bit_vec_hands_the_bits_back() {
    let mut s: BitSet<usize> = BitSet::new();
    s.insert(1);
    s.insert(4);
    let bits = s.into_bit_vec();
    assert!(bits.eq_vec(&[false, true, false, false, true]));
}

#[test]
fn get_ref_shows_the_bits() {
    let mut s: BitSet<usize> = BitSet::new();
    s.insert(2);
    assert_eq!(s.get_ref().get(2), Some(true));
    assert_eq!(s.get_ref().get(1), Some(false));
    assert_eq!(s.get_ref().get(3), None);
}

#[test]
fn with_capacity_spans_the_bits_and_holds_nothing() {
    let s: BitSet<usize> = BitSet::with_capacity(100);
    assert!(s.is_empty());
    assert_eq!(s.len(), 0);
    assert_eq!(s.get_ref().len(), 100);
    assert!(s.capacity() >= 100);
    let none: BitSet<usize> = BitSet::with_capacity(0);
    assert_eq!(none.get_ref().len(), 0);
}

#[test]
fn capacity_covers_the_storage() {
    let mut s: BitSet<usize> = BitSet::new();
    assert!(s.capacity() >= s.get_ref().len());
    s.insert(1000);
    assert!(s.capacity() >= 1001);
}

#[test]
fn reserve_len_keeps_the_contents() {
    let mut s: BitSet<usize> = BitSet::new();
    s.insert(3);
    s.reserve_len(500);
    assert!(s.capacity() >= 500);
    assert_eq!(s.get_ref().len(), 4);
    let v: Vec<usize> = s.iter().collect();
    assert_eq!(v, vec![3]);
    s.reserve_len(2);
    assert_eq!(s.get_ref().len(), 4);
    assert!(s.contains(3));
}

#[test]
fn reserve_len_exact_keeps_the_contents() {
    let mut s: BitSet<usize> = BitSet::new();
    s.insert(3);
    s.reserve_len_exact(500);
    assert!(s.capacity() >= 500);
    assert_eq!(s.get_ref().len(), 4);
    assert!(s.contains(3));
    s.reserve_len_exact(0);
    assert_eq!(s.get_ref().len(), 4);
    assert_eq!(s.len(), 1);
}

#[test]
fn shrink_to_fit_cuts_to_the_highest_member() {
    let mut s: BitSet<usize> = BitSet::new();
    s.insert(5);
    s.insert(1000);
    s.remove(1000);
    assert_eq!(s.get_ref().len(), 1001);
    s.shrink_to_fit();
    assert_eq!(s.get_ref().len(), 6);
    let v: Vec<usize> = s.iter().collect();
    assert_eq!(v, vec![5]);
    s.shrink_to_fit();
    assert_eq!(s.get_ref().len(), 6);
}

#[test]
fn shrink_to_fit_of_a_set_without_members() {
    let mut s: BitSet<usize> = BitSet::with_capacity(64);
    s.shrink_to_fit();
    assert_eq!(s.get_ref().len(), 0);
    assert!(s.is_empty());
    let mut t: BitSet<usize> = BitSet::new();
    t.shrink_to_fit();
    assert_eq!(t.get_ref().len(), 0);
}

#[test]
fn from_bytes_bit_by_bit() {
    let bytes = [0x00u8, 0xff, 0x5a, 0x81, 0x3c, 0x01, 0x80];
    let s: BitSet<usize> = BitSet::from_bytes(&bytes);
    assert_eq!(s.get_ref().len(), 8 * bytes.len());
    for i in 0..8 * bytes.len() {
        let expected = (bytes[i / 8] >> (7 - i % 8)) & 1 == 1;
        assert_eq!(s.contains(i), expected);
    }
    assert!(!s.contains(8 * bytes.len()));
}
