use tmf::unaligned_rw::{UnalignedRWMode, UnalignedReader, UnalignedWriter};

const CHANIGING_ALGHMENT_EXPECTED: [u8; 252] = [
    0b11001101, 0b00001010, 0b00110000, 0b01110000, 0b10000000, 0b01001000, 0b00010100, 0b00000010,
    0b11000000, 0b00110000, 0b00000001, 0b10100000, 0b00000111, 0b00000000, 0b00001111, 0b00000000,
    0b00010000, 0b00000000, 0b00001000, 0b10000000, 0b00000010, 0b01000000, 0b00000000, 0b01001100,
    0b00000000, 0b00000101, 0b00000000, 0b00000000, 0b00101010, 0b00000000, 0b00000000, 0b10110000,
    0b00000000, 0b00000001, 0b01110000, 0b00000000, 0b00000001, 0b10000000, 0b00000000, 0b00000000,
    0b11001000, 0b00000000, 0b00000000, 0b00110100, 0b00000000, 0b00000000, 0b00000110, 0b11000000,
    0b00000000, 0b00000000, 0b01110000, 0b00000000, 0b00000000, 0b00000011, 0b10100000, 0b00000000,
    0b00000000, 0b00001111, 0b00000000, 0b00000000, 0b00000000, 0b00011111, 0b00000000, 0b00000000,
    0b00000000, 0b00100000, 0b00000000, 0b00000000, 0b00000000, 0b00010000, 0b10000000, 0b00000000,
    0b00000000, 0b00000100, 0b01000000, 0b00000000, 0b00000000, 0b00000000, 0b10001100, 0b00000000,
    0b00000000, 0b00000000, 0b00001001, 0b00000000, 0b00000000, 0b00000000, 0b00000000, 0b01001010,
    0b00000000, 0b00000000, 0b00000000, 0b00000001, 0b00110000, 0b00000000, 0b00000000, 0b00000000,
    0b00000010, 0b01110000, 0b00000000, 0b00000000, 0b00000000, 0b00000010, 0b10000000, 0b00000000,
    0b00000000, 0b00000000, 0b00000001, 0b01001000, 0b00000000, 0b00000000, 0b00000000, 0b00000000,
    0b01010100, 0b00000000, 0b00000000, 0b00000000, 0b00000000, 0b00001010, 0b11000000, 0b00000000,
    0b00000000, 0b00000000, 0b00000000, 0b10110000, 0b00000000, 0b00000000, 0b00000000, 0b00000000,
    0b00000101, 0b10100000, 0b00000000, 0b00000000, 0b00000000, 0b00000000, 0b00010111, 0b00000000,
    0b00000000, 0b00000000, 0b00000000, 0b00000000, 0b00101111, 0b00000000, 0b00000000, 0b00000000,
    0b00000000, 0b00000000, 0b00110000, 0b00000000, 0b00000000, 0b00000000, 0b00000000, 0b00000000,
    0b00011000, 0b10000000, 0b00000000, 0b00000000, 0b00000000, 0b00000000, 0b00000110, 0b01000000,
    0b00000000, 0b00000000, 0b00000000, 0b00000000, 0b00000000, 0b11001100, 0b00000000, 0b00000000,
    0b00000000, 0b00000000, 0b00000000, 0b00001101, 0b00000000, 0b00000000, 0b00000000, 0b00000000,
    0b00000000, 0b00000000, 0b01101010, 0b00000000, 0b00000000, 0b00000000, 0b00000000, 0b00000000,
    0b00000001, 0b10110000, 0b00000000, 0b00000000, 0b00000000, 0b00000000, 0b00000000, 0b00000011,
    0b01110000, 0b00000000, 0b00000000, 0b00000000, 0b00000000, 0b00000000, 0b00000011, 0b10000000,
    0b00000000, 0b00000000, 0b00000000, 0b00000000, 0b00000000, 0b00000001, 0b11001000, 0b00000000,
    0b00000000, 0b00000000, 0b00000000, 0b00000000, 0b00000000, 0b01110100, 0b00000000, 0b00000000,
    0b00000000, 0b00000000, 0b00000000, 0b00000000, 0b00001110, 0b11000000, 0b00000000, 0b00000000,
    0b00000000, 0b00000000, 0b00000000, 0b00000000, 0b11110000, 0b00000000, 0b00000000, 0b00000000,
    0b00000000, 0b00000000, 0b00000000, 0b00000111, 0b10100000, 0b00000000, 0b00000000, 0b00000000,
    0b00000000, 0b00000000, 0b00000000, 0b00011111, 0b00000000, 0b00000000, 0b00000000, 0b00000000,
    0b00000000, 0b00000000, 0b00000000, 0b00111111,
];

#[test]
fn unaligned_rw_half_aligned() {
    let bytes: [u8; 8] = [0x01, 0x23, 0x45, 0x67, 0x89, 0xAB, 0xCD, 0xEF];
    let mut reader = UnalignedReader::new(&bytes as &[u8]);
    for byte in 0..0x10 {
        let rbyte = reader.read_unaligned(UnalignedRWMode::precision_bits(4)).unwrap() as u8;
        assert!(rbyte == byte, "{rbyte} != {byte}");
    }
}

#[test]
fn half_aligned() {
    let bytes: [u8; 8] = [0x01, 0x23, 0x45, 0x67, 0x89, 0xAB, 0xCD, 0xEF];
    let mut writter = UnalignedWriter::new(Vec::with_capacity(8));
    for byte in 0..0x10 {
        writter.write_unaligned(UnalignedRWMode::precision_bits(4), byte);
    }
    let result = writter.finish();
    assert!(result == bytes, "{:x?} != {:x?}", result, bytes);
}

#[test]
fn read2_half_aligned() {
    let bytes: [u8; 8] = [0x01, 0x23, 0x45, 0x67, 0x89, 0xAB, 0xCD, 0xEF];
    let mut reader = UnalignedReader::new(&bytes as &[u8]);
    for byte in 0..(0x10 / 2) {
        let (r1, r2) = reader.read2_unaligned(UnalignedRWMode::precision_bits(4)).unwrap();
        assert_eq!(r1, byte * 2);
        assert_eq!(r2, byte * 2 + 1);
    }
}

#[test]
fn read3_half_aligned() {
    let bytes: [u8; 8] = [0x01, 0x23, 0x45, 0x67, 0x89, 0xAB, 0xCD, 0xEF];
    let mut reader = UnalignedReader::new(&bytes as &[u8]);
    for byte in 0..(0x10 / 3) {
        let (r1, r2, r3) = reader.read3_unaligned(UnalignedRWMode::precision_bits(4)).unwrap();
        assert_eq!(r1, byte * 3, "r1");
        assert_eq!(r2, byte * 3 + 1, "r2");
        assert_eq!(r3, byte * 3 + 2, "r3");
    }
}

#[test]
fn read_bit() {
    let bytes: [u8; 2] = [0b1110_0010, 0b1010_0101];
    let expected: [bool; 16] = [
        true, true, true, false, false, false, true, false, true, false, true, false, false,
        true, false, true,
    ];
    let mut reader = UnalignedReader::new(&bytes as &[u8]);
    for val in expected {
        let rval = reader.read_bit().unwrap();
        assert_eq!(val, rval);
    }
}

#[test]
fn unaligned_rw_one_and_half_aligned() {
    let bytes: [u8; 12] = [
        0x00, 0x0F, 0xFF, 0xF0, 0xFA, 0xBC, 0x1A, 0x58, 0x54, 0x48, 0x55, 0x64,
    ];
    let expected: [u16; 8] = [0x000, 0xFFF, 0xF0F, 0xABC, 0x1A5, 0x854, 0x485, 0x564];
    let mut reader = UnalignedReader::new(&bytes as &[u8]);
    for byte in expected {
        let rbyte = reader.read_unaligned(UnalignedRWMode::precision_bits(12)).unwrap() as u16;
        assert!(rbyte == byte, "{rbyte} != {byte}");
    }
}

#[test]
fn one_and_half_aligned() {
    let bytes: [u8; 12] = [
        0x00, 0x0F, 0xFF, 0xF0, 0xFA, 0xBC, 0x1A, 0x58, 0x54, 0x48, 0x55, 0x64,
    ];
    let expected: [u16; 8] = [0x000, 0xFFF, 0xF0F, 0xABC, 0x1A5, 0x854, 0x485, 0x564];
    let mut writter = UnalignedWriter::new(Vec::with_capacity(8));
    for byte in expected {
        writter.write_unaligned(UnalignedRWMode::precision_bits(12), byte as u64);
    }
    let result = writter.finish();
    assert!(result == bytes, "{:x?} != {:x?}", result, bytes);
}

#[test]
fn unaligned_rw_bin_3_aligned() {
    // 000 001 01|0 011 100 1|01 110 111
    let bytes: [u8; 3] = [0b00000101, 0b00111001, 0b01110111];
    let mut reader = UnalignedReader::new(&bytes as &[u8]);
    for byte in 0..8 {
        let rbyte = reader.read_unaligned(UnalignedRWMode::precision_bits(3)).unwrap() as u8;
        assert!(rbyte == byte, "{rbyte:8b} != {byte:8b}");
    }
}

#[test]
fn bin_3_aligned() {
    let bytes: [u8; 3] = [0b00000101, 0b00111001, 0b01110111];
    let mut writter = UnalignedWriter::new(Vec::with_capacity(8));
    for byte in 0..0x8 {
        writter.write_unaligned(UnalignedRWMode::precision_bits(3), byte);
    }
    let result = writter.finish();
    for i in 0..3 {
        assert!(result[i] == bytes[i], "{:08b} != {:08b}", result[i], bytes[i]);
    }
    assert!(result == bytes, "{:x?} != {:x?}", result, bytes);
}

#[test]
fn unaligned_rw_changing_alignment() {
    let mut reader = UnalignedReader::new(&CHANIGING_ALGHMENT_EXPECTED as &[u8]);
    for byte in 1..64 {
        assert!(reader.read_unaligned(UnalignedRWMode::precision_bits(byte)).unwrap() == byte as u64);
    }
}

#[test]
fn changing_alignment() {
    let mut writter = UnalignedWriter::new(Vec::with_capacity(8));
    for byte in 1..64 {
        writter.write_unaligned(UnalignedRWMode::precision_bits(byte), byte as u64);
    }
    let result = writter.finish();
    assert!(result == CHANIGING_ALGHMENT_EXPECTED);
}

#[test]
fn read_past_end_is_an_error() {
    let bytes: [u8; 1] = [0xFF];
    let mut reader = UnalignedReader::new(&bytes as &[u8]);
    assert_eq!(reader.read_unaligned(UnalignedRWMode::precision_bits(5)).unwrap(), 0b11111);
    assert_eq!(
        reader.read_unaligned(UnalignedRWMode::precision_bits(4)),
        Err(tmf::StreamError::UnexpectedEof)
    );
    assert_eq!(reader.read_bit().unwrap(), true);
}

#[test]
fn zero_and_wide_modes_read_nothing() {
    let bytes: [u8; 1] = [0b1010_0000];
    let mut reader = UnalignedReader::new(&bytes as &[u8]);
    assert_eq!(reader.read_unaligned(UnalignedRWMode::precision_bits(0)).unwrap(), 0);
    assert_eq!(reader.read_unaligned(UnalignedRWMode::precision_bits(65)).unwrap(), 0);
    assert_eq!(reader.read_unaligned(UnalignedRWMode::precision_bits(3)).unwrap(), 0b101);
}

#[test]
fn width_64_needs_eight_bytes() {
    let bytes: [u8; 1] = [0b1010_0000];
    let mut reader = UnalignedReader::new(&bytes as &[u8]);
    assert!(reader.read_unaligned(UnalignedRWMode::precision_bits(64)).is_err());
}

#[test]
fn width_64_reads_a_whole_window() {
    let bytes: [u8; 9] = [0b1000_0001, 0x23, 0x45, 0x67, 0x89, 0xAB, 0xCD, 0xEF, 0b1100_0000];
    let mut reader = UnalignedReader::new(&bytes as &[u8]);
    assert_eq!(reader.read_unaligned(UnalignedRWMode::precision_bits(1)).unwrap(), 1);
    assert_eq!(
        reader.read_unaligned(UnalignedRWMode::precision_bits(64)).unwrap(),
        0x0246_8ACF_1357_9BDF
    );
    assert_eq!(reader.read_unaligned(UnalignedRWMode::precision_bits(1)).unwrap(), 1);
}

#[test]
fn write_then_read_64_bit_values() {
    let values: [u64; 3] = [u64::MAX, 0x0123_4567_89AB_CDEF, 1];
    let mut writer = UnalignedWriter::new(Vec::new());
    writer.write_unaligned(UnalignedRWMode::precision_bits(3), 0b101);
    for v in values {
        writer.write_unaligned(UnalignedRWMode::precision_bits(64), v);
    }
    let bytes = writer.finish();
    assert_eq!(bytes.len(), 25);
    let mut reader = UnalignedReader::new(&bytes as &[u8]);
    assert_eq!(reader.read_unaligned(UnalignedRWMode::precision_bits(3)).unwrap(), 0b101);
    for v in values {
        assert_eq!(reader.read_unaligned(UnalignedRWMode::precision_bits(64)).unwrap(), v);
    }
}

#[test]
fn read2_at_32_bits_reads_both_words() {
    let bytes: [u8; 8] = [0xFF, 0xFF, 0xFF, 0xFF, 0x00, 0x00, 0x00, 0x2A];
    let mut reader = UnalignedReader::new(&bytes as &[u8]);
    assert_eq!(reader.read2_unaligned(UnalignedRWMode::precision_bits(32)).unwrap(), (0xFFFF_FFFF, 0x2A));
    assert!(reader.read_unaligned(UnalignedRWMode::precision_bits(8)).is_err());
}

#[test]
fn read_pair_splits_a_window() {
    let bytes: [u8; 2] = [0b1011_0110, 0b0100_0000];
    let mut reader = UnalignedReader::new(&bytes as &[u8]);
    let pair = reader
        .read_pair_unaligned(UnalignedRWMode::precision_bits(3), UnalignedRWMode::precision_bits(7))
        .unwrap();
    // 1011011001: first value is the window shifted right by 3 bits, second its lowest 3 bits.
    assert_eq!(pair, (0b1011011, 0b001));
}

#[test]
fn writer_keeps_existing_bytes_and_pads() {
    let mut writer = UnalignedWriter::new(vec![0xAA]);
    writer.write_bit(true);
    writer.write_unaligned(UnalignedRWMode::precision_bits(2), 0b01);
    writer.flush();
    assert_eq!(writer.finish(), vec![0xAA, 0b1010_0000]);
}

#[test]
fn writer_takes_lowest_bits() {
    let mut writer = UnalignedWriter::new(Vec::new());
    writer.write_unaligned(UnalignedRWMode::precision_bits(4), 0xFF3);
    writer.write_unaligned(UnalignedRWMode::precision_bits(4), 0x5);
    assert_eq!(writer.finish(), vec![0x35]);
}

#[test]
fn rw_mode_bits() {
    assert_eq!(UnalignedRWMode::precision_bits(17).bits(), 17);
}

#[test]
fn flush_holds_the_completed_bytes() {
    let mut writer = UnalignedWriter::new(vec![0xAA]);
    writer.write_unaligned(UnalignedRWMode::precision_bits(11), 0b1111_0000_101);
    writer.flush();
    assert_eq!(writer.buffer(), &[0xAA, 0b1111_0000]);
    writer.write_unaligned(UnalignedRWMode::precision_bits(5), 0b11111);
    writer.flush();
    assert_eq!(writer.buffer(), &[0xAA, 0b1111_0000, 0b1011_1111]);
    writer.write_bit(true);
    writer.flush();
    assert_eq!(writer.buffer().len(), 3);
    assert_eq!(writer.finish(), vec![0xAA, 0b1111_0000, 0b1011_1111, 0b1000_0000]);
}

#[test]
fn mixed_widths_read_back_in_order() {
    let widths: [u8; 6] = [1, 63, 7, 64, 13, 2];
    let values: [u64; 6] = [1, (1 << 62) + 12345, 0x55, u64::MAX - 7, 0x1ABC, 2];
    let mut writer = UnalignedWriter::new(Vec::new());
    for (w, v) in widths.iter().zip(values.iter()) {
        writer.write_unaligned(UnalignedRWMode::precision_bits(*w), *v);
    }
    let bytes = writer.finish();
    let mut reader = UnalignedReader::new(&bytes as &[u8]);
    for (w, v) in widths.iter().zip(values.iter()) {
        assert_eq!(reader.read_unaligned(UnalignedRWMode::precision_bits(*w)).unwrap(), *v);
    }
}
