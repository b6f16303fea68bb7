use tmf::lz77::{
    calc_sw_size, compressed_readable, find_longest_match, match_len, read_compressed_array, save_compressed_array,
    save_triangles_lzz,
};
use tmf::unaligned_rw::UnalignedRWMode;

#[test]
fn encode_ascii_lzz() {
    let data = b"LZ77 algorithms achieve compression by replacing repeated occurrences of data with references to a single copy of that data existing earlier in the uncompressed data stream. A match is encoded by a pair of numbers called a length-distance pair, which is equivalent to the statement \"each of the next length characters is equal to the characters exactly distance characters behind it in the uncompressed stream\". (The distance is sometimes called the offset instead.) To spot matches, the encoder must keep track of some amount of the most recent data, such as the last 2 KB, 4 KB, or 32 KB. The structure in which this data is held is called a sliding window, which is why LZ77 is sometimes called sliding-window compression. The encoder needs to keep this data to look for matches, and the decoder needs to keep this data to interpret the matches the encoder refers to. The larger the sliding window is, the longer back the encoder may search for creating references";
    let mut out = Vec::new();
    let values: Vec<u64> = data.iter().map(|input: &u8| *input as u64).collect();
    save_compressed_array(&values, UnalignedRWMode::precision_bits(7), &mut out);
    let read = read_compressed_array(UnalignedRWMode::precision_bits(7), data.len(), &out[..]).unwrap();
    let _data: Vec<u8> = read.iter().map(|input: &u64| *input as u8).collect();
}

#[test]
fn compress_triangles() {
    let triangles: Vec<u32> = vec![4, 5, 6, 4, 5, 6, 4, 5, 6, 7];
    let mut out = Vec::new();
    save_triangles_lzz(&triangles, 7, &mut out);
    // Precision for indices up to 7: 3 bits; count; smallest index.
    assert_eq!(out[0], 3);
    assert_eq!(u64::from_le_bytes(out[1..9].try_into().unwrap()), 10);
    assert_eq!(u64::from_le_bytes(out[9..17].try_into().unwrap()), 4);
    let lowered = read_compressed_array(UnalignedRWMode::precision_bits(3), 10, &out[17..]).unwrap();
    assert_eq!(lowered, vec![0, 1, 2, 0, 1, 2, 0, 1, 2, 3]);
}

#[test]
fn compression_roundtrip() {
    let values: Vec<u64> = vec![1, 2, 3, 1, 2, 3, 1, 2, 3, 9, 9, 9, 9, 0];
    let mut out = vec![0xEE];
    save_compressed_array(&values, UnalignedRWMode::precision_bits(5), &mut out);
    assert_eq!(out[0], 0xEE);
    let read = read_compressed_array(UnalignedRWMode::precision_bits(5), values.len(), &out[1..]).unwrap();
    assert_eq!(read, values);
}

#[test]
fn compressed_raw_values_exact_bits() {
    // Two different values: both raw, each a set bit and 4 bits.
    let mut out = Vec::new();
    save_compressed_array(&[3, 12], UnalignedRWMode::precision_bits(4), &mut out);
    // 1 0011 1 1100 -> 10011111 00000000
    assert_eq!(out, vec![0b1001_1111, 0b0000_0000]);
}

#[test]
fn compressed_stream_too_short() {
    let read = read_compressed_array(UnalignedRWMode::precision_bits(7), 3, &[0b1000_0001]);
    assert_eq!(read, Err(tmf::StreamError::UnexpectedEof));
}

#[test]
fn match_helpers() {
    let data = [1u64, 2, 1, 2, 1, 3];
    assert_eq!(match_len(&data, 0, 2), 3);
    assert_eq!(match_len(&data, 1, 2), 0);
    assert_eq!(find_longest_match(&data, 2, 127), (2, 3));
    assert_eq!(find_longest_match(&data, 2, 1), (0, 0));
    assert_eq!(calc_sw_size(7), 128);
}

#[test]
fn compressed_readable_checks_match_offsets() {
    let prec = UnalignedRWMode::precision_bits(4);
    let values: Vec<u64> = vec![1, 2, 1, 2, 1, 2, 3];
    let mut out = Vec::new();
    save_compressed_array(&values, prec, &mut out);
    assert!(compressed_readable(prec, values.len(), &out));
    assert_eq!(read_compressed_array(prec, values.len(), &out).unwrap(), values);
    // A match of one value reaching one value back, with nothing decoded yet.
    assert!(!compressed_readable(prec, 1, &[0b0000_1000, 0b1000_0000]));
    // A stream that ends early is an error, which reading reports.
    assert!(compressed_readable(prec, 1, &[]));
    assert!(read_compressed_array(prec, 1, &[]).is_err());
    assert!(compressed_readable(prec, 0, &[]));
}
