use jtag::bits::{byte_bit, BitStream, MAX_BITS};

fn bits(values: &[u8]) -> Vec<bool> {
    values.iter().map(|v| *v != 0).collect()
}

#[test]
fn new_stream_is_empty() {
    let stream = BitStream::new();
    assert_eq!(stream.len(), 0);
    assert_eq!(stream.to_bools(), Vec::<bool>::new());
    assert_eq!(stream.to_bytes(), Vec::<u8>::new());
}

#[test]
fn push_adds_at_the_end() {
    let mut stream = BitStream::new();
    stream.push(true);
    stream.push(false);
    stream.push(true);
    assert_eq!(stream.len(), 3);
    assert!(stream.get(0));
    assert!(!stream.get(1));
    assert!(stream.get(2));
    assert_eq!(stream.to_bools(), bits(&[1, 0, 1]));
}

#[test]
fn repeat_fills_with_one_value() {
    assert_eq!(BitStream::repeat(false, 4).to_bools(), bits(&[0, 0, 0, 0]));
    assert_eq!(BitStream::repeat(true, 5).to_bools(), bits(&[1, 1, 1, 1, 1]));
    assert_eq!(BitStream::repeat(true, 0).len(), 0);
}

#[test]
fn extend_appends_in_order() {
    let mut stream = BitStream::from_bools(&bits(&[1, 0]));
    stream.extend_from_bitslice(&BitStream::from_bools(&bits(&[0, 1, 1])));
    assert_eq!(stream.to_bools(), bits(&[1, 0, 0, 1, 1]));
    stream.extend_from_bitslice(&BitStream::new());
    assert_eq!(stream.len(), 5);
}

#[test]
fn clone_holds_the_same_bits() {
    let stream = BitStream::from_bools(&bits(&[1, 1, 0, 1]));
    let copy = stream.clone();
    assert_eq!(copy, stream);
    assert_eq!(copy.to_bools(), bits(&[1, 1, 0, 1]));
    let mut longer = stream.clone();
    longer.push(false);
    assert_ne!(longer, stream);
}

#[test]
fn bools_round_trip() {
    let values = bits(&[0, 1, 1, 0, 1, 0, 0, 0, 1, 1]);
    assert_eq!(BitStream::from_bools(&values).to_bools(), values);
}

#[test]
fn bytes_are_packed_least_significant_bit_first() {
    let stream = BitStream::from_bools(&bits(&[1, 0, 0, 0, 0, 0, 0, 0, 0, 1, 1]));
    assert_eq!(stream.to_bytes(), vec![0x01, 0x06]);
    let stream = BitStream::from_bools(&bits(&[0, 0, 0, 0, 0, 0, 0, 1]));
    assert_eq!(stream.to_bytes(), vec![0x80]);
}

#[test]
fn bytes_are_unpacked_least_significant_bit_first() {
    let stream = BitStream::from_bytes(&[0b0001_1111, 0b0000_0010], 10);
    assert_eq!(stream.to_bools(), bits(&[1, 1, 1, 1, 1, 0, 0, 0, 0, 1]));
    assert_eq!(BitStream::from_bytes(&[0xff], 0).len(), 0);
}

#[test]
fn a_range_of_packed_bits() {
    let stream = BitStream::from_bytes_range(&[0b1010_0000, 0b0000_0101], 5, 11);
    assert_eq!(stream.to_bools(), bits(&[1, 0, 1, 1, 0, 1]));
    assert_eq!(BitStream::from_bytes_range(&[0xff], 3, 3).len(), 0);
}

#[test]
fn packing_round_trips_for_every_length() {
    for len in 0..40usize {
        let values: Vec<bool> = (0..len).map(|i| (i * 7 + len) % 3 == 0).collect();
        let stream = BitStream::from_bools(&values);
        let bytes = stream.to_bytes();
        assert_eq!(bytes.len(), (len + 7) / 8);
        assert_eq!(BitStream::from_bytes(&bytes, len), stream);
    }
}

#[test]
fn unused_bits_of_the_last_byte_are_zero() {
    let stream = BitStream::repeat(true, 11);
    assert_eq!(stream.to_bytes(), vec![0xff, 0x07]);
}

#[test]
fn byte_of_takes_up_to_eight_bits() {
    let stream = BitStream::from_bools(&bits(&[1, 1, 0, 1, 0, 0, 1, 1, 1, 0, 1]));
    assert_eq!(stream.byte_of(0, 8), 0b1100_1011);
    assert_eq!(stream.byte_of(0, 3), 0b011);
    assert_eq!(stream.byte_of(3, 7), 0b011_1001);
    assert_eq!(stream.byte_of(8, 8), 0b101);
    assert_eq!(stream.byte_of(11, 8), 0);
    assert_eq!(stream.byte_of(4, 0), 0);
}

#[test]
fn byte_bit_counts_from_the_least_significant_bit() {
    assert!(byte_bit(0b0000_0001, 0));
    assert!(!byte_bit(0b0000_0001, 1));
    assert!(byte_bit(0b1000_0000, 7));
    assert!(!byte_bit(0b0111_1111, 7));
}

#[test]
fn a_stream_holds_an_eighth_of_the_address_space() {
    assert_eq!(MAX_BITS, usize::MAX >> 3);
}
