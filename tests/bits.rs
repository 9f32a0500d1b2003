use freelist::bits::{
    lowest_clear, lowest_set, positions, single_bit, with_bit, without_bit, without_bits,
};

#[test]
fn lowest_clear_bit() {
    assert_eq!(lowest_clear(0), 0);
    assert_eq!(lowest_clear(0b0111), 3);
    assert_eq!(lowest_clear(u64::MAX - 1), 0);
    assert_eq!(lowest_clear(u64::MAX), 64);
}

#[test]
fn lowest_set_bit() {
    assert_eq!(lowest_set(0), 64);
    assert_eq!(lowest_set(0b1000), 3);
    assert_eq!(lowest_set(1u64 << 63), 63);
}

#[test]
fn setting_and_clearing_bits() {
    assert_eq!(single_bit(5), 32);
    assert_eq!(with_bit(0b0001, 2), 0b0101);
    assert_eq!(with_bit(0b0100, 2), 0b0100);
    assert_eq!(without_bit(0b0101, 0), 0b0100);
    assert_eq!(without_bits(0b1111, 0b0110), 0b1001);
}

#[test]
fn positions_in_order() {
    assert_eq!(positions(0), Vec::<u32>::new());
    assert_eq!(positions(0b1010_0001), vec![0, 5, 7]);
    assert_eq!(positions(u64::MAX).len(), 64);
}
