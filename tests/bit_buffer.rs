use vinox_chunks::BitBuffer;

#[test]
fn new_buffer_reads_zero() {
    let b = BitBuffer::new(64);
    for i in 0..16 {
        assert_eq!(b.get(i * 4, 4), 0);
    }
}

#[test]
fn set_then_get_round_trips() {
    let mut b = BitBuffer::new(40);
    b.set(0, 4, 0b1011);
    b.set(4, 4, 0b0110);
    b.set(8, 16, 0xbeef);
    b.set(24, 16, 0x1234);
    assert_eq!(b.get(0, 4), 0b1011);
    assert_eq!(b.get(4, 4), 0b0110);
    assert_eq!(b.get(8, 16), 0xbeef);
    assert_eq!(b.get(24, 16), 0x1234);
}

#[test]
fn values_are_little_endian_in_bit_order() {
    let mut b = BitBuffer::new(16);
    b.set(3, 5, 0b10001);
    assert_eq!(b.get(3, 1), 1);
    assert_eq!(b.get(4, 3), 0);
    assert_eq!(b.get(7, 1), 1);
    assert_eq!(b.get(0, 3), 0);
    assert_eq!(b.get(8, 8), 0);
}

#[test]
fn overwriting_leaves_neighbours() {
    let mut b = BitBuffer::new(12);
    b.set(0, 2, 3);
    b.set(2, 2, 1);
    b.set(4, 2, 2);
    b.set(2, 2, 2);
    assert_eq!(b.get(0, 2), 3);
    assert_eq!(b.get(2, 2), 2);
    assert_eq!(b.get(4, 2), 2);
    assert_eq!(b.get(6, 2), 0);
}

#[test]
#[allow(clippy::redundant_clone)]
fn clone_copies_bits() {
    let mut b = BitBuffer::new(8);
    b.set(0, 8, 0xa5);
    let c = b.clone();
    b.set(0, 8, 0);
    assert_eq!(c.get(0, 8), 0xa5);
    assert_eq!(b.get(0, 8), 0);
}

#[test]
fn bits_out_and_back_in() {
    let mut b = BitBuffer::new(10);
    b.set(1, 3, 0b101);
    b.set(7, 2, 0b11);
    let bits = b.to_bits();
    assert_eq!(
        bits,
        vec![false, true, false, true, false, false, false, true, true, false]
    );
    let c = BitBuffer::from_bits(&bits);
    assert_eq!(c.get(1, 3), 0b101);
    assert_eq!(c.get(7, 2), 0b11);
    assert_eq!(c.to_bits(), bits);
}
