use tmf::unaligned_lz::{bits_to_bytes, bytes_to_bits, evaluate_match, find_best_match};

const BITS: [bool; 16] = [
    true, true, true, false, false, false, true, false, true, false, false, true, false, true,
    true, false,
];
const BYTES: [u8; 2] = [0b11100010, 0b10010110];

#[test]
fn unaligned_lz_by_to_bi() {
    let bits = bytes_to_bits(&BYTES);
    assert!(&BITS == bits.as_slice(), "{BITS:?} != {:?}", bits.as_slice());
}

#[test]
fn unaligned_lz_bi_to_by() {
    let bytes = bits_to_bytes(&BITS);
    println!("{:08b} {:08b}", bytes[0], BYTES[0]);
    assert!(&BYTES == bytes.as_slice(), "{BYTES:?} != {:?}", bytes.as_slice());
}

#[test]
fn unaligned_lzz_by_to_bi() {
    let bits = tmf::unaligned_lzz::bytes_to_bits(&BYTES);
    assert!(&BITS == bits.as_slice(), "{BITS:?} != {:?}", bits.as_slice());
}

#[test]
fn unaligned_lzz_bi_to_by() {
    let bytes = tmf::unaligned_lzz::bits_to_bytes(&BITS);
    println!("{:08b} {:08b}", bytes[0], BYTES[0]);
    assert!(&BYTES == bytes.as_slice(), "{BYTES:?} != {:?}", bytes.as_slice());
}

#[test]
fn bits_to_bytes_drops_a_partial_byte() {
    let bits = [true; 11];
    assert_eq!(bits_to_bytes(&bits), vec![0xFF]);
}

#[test]
fn evaluate_match_counts_equal_bits() {
    let a = [false, false, false, false, true];
    assert_eq!(evaluate_match(&a, 1, 0), 3);
    assert_eq!(evaluate_match(&a, 4, 0), 0);
    assert_eq!(evaluate_match(&a, 0, 0), 5);
}

#[test]
fn find_best_match_keeps_the_earliest_longest() {
    // 0 1 0 1 | 0 1 1
    let a = [false, true, false, true, false, true, true];
    // Matches for position 4: at 0 "01 01 1" vs "011" -> 2 bits, at 2 -> 2 bits; first kept.
    assert_eq!(find_best_match(&a, 4, 4), (2, 0));
    // A window of 2^(1-1) = 1 bit looks only at position 3.
    assert_eq!(find_best_match(&a, 4, 1), (0, 0));
}

#[test]
fn lzz_search_finds_nothing() {
    let a = [true, true, false, true];
    assert_eq!(tmf::unaligned_lzz::get_compression(&a, 2, 3), (0, 0));
}
