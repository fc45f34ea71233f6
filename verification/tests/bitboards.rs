use adam_chess::bitboard::Bitboard;

#[test]
fn the_highest_bit_is_a8() {
    let bb = Bitboard::new(0x8000_0000_0000_0000);
    assert!(bb.get_bit(0));
    assert!(!bb.get_bit(1));
    assert!(!bb.get_bit(63));
    let h1 = Bitboard::new(1);
    assert!(h1.get_bit(63));
    assert!(!h1.get_bit(0));
}

#[test]
fn set_and_clear_one_square() {
    let mut bb = Bitboard::new(0);
    bb.set_bit(10);
    assert_eq!(bb.to_u64(), 1u64 << 53);
    assert!(bb.get_bit(10));
    bb.set_bit(63);
    assert_eq!(bb.to_u64(), (1u64 << 53) | 1);
    bb.clear_bit(10);
    assert_eq!(bb.to_u64(), 1);
    bb.clear_bit(10);
    assert_eq!(bb.to_u64(), 1);
}

#[test]
fn get_bit_manual_reads_the_named_square() {
    let mut bb = Bitboard::new(0);
    bb.set_bit(0);
    bb.set_bit(52);
    assert!(bb.get_bit_manual(1, 8));
    assert!(bb.get_bit_manual(5, 2));
    assert!(!bb.get_bit_manual(8, 1));
    assert!(!bb.get_bit_manual(5, 4));
}

#[test]
fn union_intersect_complement() {
    let a = Bitboard::new(0b1100);
    let b = Bitboard::new(0b1010);
    assert_eq!(a.union(b).to_u64(), 0b1110);
    assert_eq!(a.intersect(b).to_u64(), 0b1000);
    assert_eq!((a | b).to_u64(), 0b1110);
    assert_eq!((a & b).to_u64(), 0b1000);
    assert_eq!(a.complement().to_u64(), !0b1100u64);
    assert!(Bitboard::new(0).is_empty());
    assert!(!a.is_empty());
    assert_eq!(Bitboard::single(63).to_u64(), 1);
    assert_eq!(Bitboard::single(0).to_u64(), 1u64 << 63);
}

#[test]
fn the_walk_goes_from_the_lowest_square_up() {
    let mut bb = Bitboard::new(0);
    bb.set_bit(40);
    bb.set_bit(3);
    bb.set_bit(63);
    bb.set_bit(0);
    let mut it = bb.iter();
    assert_eq!(it.next(), Some(0));
    assert_eq!(it.next(), Some(3));
    assert_eq!(it.next(), Some(40));
    assert_eq!(it.next(), Some(63));
    assert_eq!(it.next(), None);
    assert_eq!(it.next(), None);
    let mut again = bb.iter();
    assert_eq!(again.next(), Some(0));
    assert_eq!(bb.to_u64().count_ones(), 4);
}

#[test]
fn the_walk_over_the_empty_set_ends_at_once() {
    let mut it = Bitboard::new(0).iter();
    assert_eq!(it.next(), None);
}
