use tmf::custom_data::{CustomDataSegment, DataSegmentError, RawCustomData};
use tmf::normals::{read_normal_codes, save_normal_codes, NormalPrecisionMode};
use tmf::read_extension::ByteReader;
use tmf::tangents::{read_tangent_codes, save_tangent_codes, TangentPrecisionMode};
use tmf::tmf::SectionType;
use tmf::tmf_exporter::{write_mesh_name, write_tmf_header};
use tmf::tmf_importer::{read_string, read_tmf_header, TMFHeader, TMFImportContext};
use tmf::uv::{read_uv_codes, save_uv_codes, UvPrecisionMode};
use tmf::vertices::{read_triangle_seg, read_vertex_codes, save_triangles, save_vertex_codes};
use tmf::{StreamError, TMFImportError, TMF_MAJOR, TMF_MINOR};

fn current_ctx() -> TMFImportContext {
    TMFImportContext::init_header(TMFHeader { major: 0, minor: 2, min_major: 0, min_minor: 2 })
}

#[test]
fn tmf_header_roundtrip() {
    let mut out = Vec::new();
    write_tmf_header(&mut out, 3);
    assert_eq!(&out[0..3], b"TMF");
    let mut reader = ByteReader::new(&out);
    let header = read_tmf_header(&mut reader).unwrap();
    assert_eq!(header.major, TMF_MAJOR);
    assert_eq!(header.minor, TMF_MINOR);
    assert_eq!(u32::from_le_bytes(out[11..15].try_into().unwrap()), 3);
}

#[test]
fn not_a_tmf_file() {
    let data = b"OBJ\x00\x00\x02\x00\x00\x00\x02\x00";
    let mut reader = ByteReader::new(data);
    assert_eq!(read_tmf_header(&mut reader).unwrap_err(), TMFImportError::NotTMFFile);
}

#[test]
fn newer_version_required() {
    let data = b"TMF\x00\x00\x02\x00\x01\x00\x00\x00";
    let mut reader = ByteReader::new(data);
    assert_eq!(read_tmf_header(&mut reader).unwrap_err(), TMFImportError::NewerVersionRequired);
}

#[test]
fn mesh_name_roundtrip() {
    let mut out = Vec::new();
    write_mesh_name(&mut out, "Suzanne");
    assert_eq!(out[0..2], [7, 0]);
    let mut reader = ByteReader::new(&out);
    assert_eq!(read_string(&mut reader).unwrap(), "Suzanne");
}

#[test]
fn invalid_utf8_name() {
    let data = [2u8, 0, 0xff, 0xfe];
    let mut reader = ByteReader::new(&data);
    assert_eq!(read_string(&mut reader), Err(StreamError::InvalidUtf8));
}

#[test]
fn triangles_roundtrip() {
    let triangles = vec![10u32, 11, 12, 13, 10, 15];
    let mut out = Vec::new();
    save_triangles(&triangles, 15, &mut out);
    // precision for indices up to 15 is 4 bits; the smallest index is stored.
    assert_eq!(out[0], 4);
    assert_eq!(u64::from_le_bytes(out[9..17].try_into().unwrap()), 10);
    assert_eq!(read_triangle_seg(&out, true, true).unwrap(), triangles);
    assert_eq!(read_triangle_seg(&out, true, false).unwrap(), triangles);
}

#[test]
fn triangle_segment_too_long() {
    let mut data = vec![4u8];
    data.extend_from_slice(&(0x8000_0001u64).to_le_bytes());
    data.extend_from_slice(&0u64.to_le_bytes());
    assert_eq!(read_triangle_seg(&data, true, true).unwrap_err(), TMFImportError::SegmentTooLong);
}

#[test]
fn triangle_precision_64_reads_whole_words() {
    let mut data = vec![64u8];
    data.extend_from_slice(&2u64.to_le_bytes());
    data.extend_from_slice(&7u64.to_le_bytes());
    // Without the 16 bytes of the two indices the stream ends early.
    assert_eq!(read_triangle_seg(&data, true, true).unwrap_err(), TMFImportError::IO(StreamError::UnexpectedEof));
    // Each index is a whole 64 bit word plus the smallest index, wrapped to 32 bits.
    data.extend_from_slice(&0x1_0000_0005u64.to_be_bytes());
    data.extend_from_slice(&3u64.to_be_bytes());
    assert_eq!(read_triangle_seg(&data, true, true).unwrap(), vec![12, 10]);
}

#[test]
fn vertex_codes_roundtrip() {
    let bounds = [1u64, 2, 3, 4, 5, 6];
    let precisions = [3u8, 5, 7];
    let codes = vec![7u64, 31, 127, 0, 1, 2];
    let mut out = Vec::new();
    save_vertex_codes(bounds, precisions, &codes, &mut out);
    assert_eq!(u64::from_le_bytes(out[0..8].try_into().unwrap()), 2);
    assert_eq!(out[56..59], precisions);
    let read = read_vertex_codes(&out).unwrap();
    assert_eq!(read.bounds, bounds);
    assert_eq!(read.precisions, precisions);
    assert_eq!(read.codes, codes);
}

#[test]
fn vertex_codes_errors() {
    let mut out = Vec::new();
    save_vertex_codes([0; 6], [3, 64, 3], &[1, 1, 1], &mut out);
    assert_eq!(read_vertex_codes(&out).err(), Some(TMFImportError::InvalidPrecision(64)));
    assert_eq!(
        read_vertex_codes(&out[0..20]).err(),
        Some(TMFImportError::IO(StreamError::UnexpectedEof))
    );
}

#[test]
fn normal_codes_roundtrip() {
    let codes = vec![1u64, 2, 3, 4];
    let mut out = Vec::new();
    save_normal_codes(&codes, NormalPrecisionMode::from_bits(3), &mut out);
    let (mode, read) = read_normal_codes(&out).unwrap();
    assert_eq!(mode.bits(), 3);
    assert_eq!(read, codes);
}

#[test]
fn normal_precision_32_round_trips() {
    let codes = vec![5u64, 0xFFFF_FFFF];
    let mut out = Vec::new();
    save_normal_codes(&codes, NormalPrecisionMode::from_bits(32), &mut out);
    let (mode, read) = read_normal_codes(&out).unwrap();
    assert_eq!(mode.bits(), 32);
    assert_eq!(read, codes);
}

#[test]
fn uv_codes_roundtrip_and_zero_precision() {
    let codes = vec![9u64, 10, 11, 12];
    let mut out = Vec::new();
    save_uv_codes(&codes, UvPrecisionMode::from_bits(4), &mut out);
    assert_eq!(out[0], 4);
    let (mode, read) = read_uv_codes(&out).unwrap();
    assert_eq!(mode.bits(), 4);
    assert_eq!(read, codes);
    let mut zero = Vec::new();
    save_uv_codes(&codes, UvPrecisionMode::from_bits(0), &mut zero);
    let (_, read) = read_uv_codes(&zero).unwrap();
    assert_eq!(read, vec![0, 0, 0, 0]);
}

#[test]
fn tangent_codes_roundtrip() {
    let codes = vec![1u64, 0, 1, 0, 100, 200, 0, 1, 1, 1, 7, 8];
    let mut out = Vec::new();
    save_tangent_codes(&codes, TangentPrecisionMode::from_bits(9), &mut out);
    let (mode, read) = read_tangent_codes(&out).unwrap();
    assert_eq!(mode.normal_precision().bits(), 9);
    assert_eq!(read, codes);
}

#[test]
fn precision_defaults() {
    assert_eq!(NormalPrecisionMode::default().bits(), 7);
    assert_eq!(TangentPrecisionMode::default().normal_precision().bits(), 7);
    assert_eq!(UvPrecisionMode::default().bits(), 14);
    assert!(NormalPrecisionMode::default() == NormalPrecisionMode::from_bits(7));
}

#[test]
fn custom_segment_names() {
    assert_eq!(
        CustomDataSegment::new(RawCustomData::new_index(&[1, 2], None), "").err(),
        Some(DataSegmentError::NoName)
    );
    let long = "x".repeat(256);
    assert_eq!(
        CustomDataSegment::new(RawCustomData::new_index(&[1, 2], None), &long).err(),
        Some(DataSegmentError::NameTooLong)
    );
    let seg = CustomDataSegment::new(RawCustomData::new_index(&[1, 2], None), "idx").unwrap();
    assert_eq!(seg.name_bytes(), b"idx");
    assert_eq!(seg.name_len(), 3);
}

#[test]
fn custom_index_segment_roundtrip() {
    let seg = CustomDataSegment::new(RawCustomData::new_index(&[4, 2, 9], None), "idx").unwrap();
    let mut out = Vec::new();
    assert_eq!(seg.encode(&mut out), SectionType::CustomIndexSegment);
    let read = CustomDataSegment::read(&out, SectionType::CustomIndexSegment, &current_ctx()).unwrap();
    assert_eq!(read.name_bytes(), b"idx");
    match read.custom_data() {
        RawCustomData::CustomIndex(v, max) => {
            assert_eq!(v, &vec![4, 2, 9]);
            assert_eq!(*max, 9);
        }
        _ => panic!("not index data"),
    }
}

#[test]
fn custom_float_segment_roundtrip() {
    let data = RawCustomData::CustomFloat(0x3ff0_0000_0000_0000, 0x4000_0000_0000_0000, 6, vec![0, 63, 17]);
    let seg = CustomDataSegment::new(data, "f").unwrap();
    let mut out = Vec::new();
    assert_eq!(seg.encode(&mut out), SectionType::CustomFloatSegment);
    let read = CustomDataSegment::read(&out, SectionType::CustomFloatSegment, &current_ctx()).unwrap();
    match read.custom_data() {
        RawCustomData::CustomFloat(lo, hi, prec, codes) => {
            assert_eq!((*lo, *hi, *prec), (0x3ff0_0000_0000_0000, 0x4000_0000_0000_0000, 6));
            assert_eq!(codes, &vec![0, 63, 17]);
        }
        _ => panic!("not float data"),
    }
}

#[test]
fn custom_float_segment_too_long() {
    let mut data = vec![1u8, b'f'];
    data.extend_from_slice(&(0x8000_0001u64).to_le_bytes());
    let read = CustomDataSegment::read(&data, SectionType::CustomFloatSegment, &current_ctx());
    assert_eq!(read.err().map(|e| e), Some(TMFImportError::SegmentTooLong));
}

#[test]
fn custom_color_segment_roundtrip() {
    let data = RawCustomData::CustomColorRGBA(5, vec![1, 2, 3, 4, 31, 30, 29, 28]);
    let seg = CustomDataSegment::new(data, "c").unwrap();
    let mut out = Vec::new();
    assert_eq!(seg.encode(&mut out), SectionType::CustomColorSegment);
    let read = CustomDataSegment::read(&out, SectionType::CustomColorSegment, &current_ctx()).unwrap();
    match read.custom_data() {
        RawCustomData::CustomColorRGBA(prec, codes) => {
            assert_eq!(*prec, 5);
            assert_eq!(codes, &vec![1, 2, 3, 4, 31, 30, 29, 28]);
        }
        _ => panic!("not color data"),
    }
}
