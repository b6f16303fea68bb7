use tmf::lz77::calc_sw_size;
use tmf::material::MaterialInfo;
use tmf::metadata::FileMetadata;
use tmf::tmf::{CompressionType, SectionType, SharedSegmentKind};
use tmf::tmf_exporter::{calc_spilt_score, opt_tris};
use tmf::tmf_segment;
use tmf::vertices::calc_prec;
use tmf::{vec_first, TMFImportError};

#[test]
fn section_and_compression_codes() {
    assert_eq!(SectionType::from_u8(25), SectionType::SharedTriangleSegment);
    assert_eq!(SectionType::from_u8(7), SectionType::Invalid);
    assert_eq!(SectionType::from_u8(23), SectionType::CustomColorSegment);
    assert_eq!(SectionType::from_u16(0x102), SectionType::Invalid);
    assert_eq!(SectionType::from_u16(2), SectionType::VertexTriangleSegment);
    assert!(SectionType::SharedTriangleSegment.is_triangle());
    assert!(!SectionType::VertexSegment.is_triangle());
    assert_eq!(CompressionType::from_u8(255), Ok(CompressionType::Sequence));
    assert_eq!(CompressionType::from_u8(9), Err(TMFImportError::CompressionTypeUnknown(9)));
    assert_eq!(tmf_segment::SectionType::from_u16(6), tmf_segment::SectionType::UvTriangleSegment);
    assert_eq!(tmf_segment::SectionType::from_u16(7), tmf_segment::SectionType::Invalid);
    assert_eq!(tmf_segment::CompressionType::from_u8(2), tmf_segment::CompressionType::UnalignedLZZ);
}

#[test]
fn shared_kind_flags() {
    let mut kind = SharedSegmentKind::empty();
    assert!(!kind.get_vertex());
    kind.set_normal();
    assert!(kind.get_normal() && !kind.get_uv());
    let combined = kind.combine(SharedSegmentKind::from_mask(0x1));
    assert_eq!(combined.mask(), 0x3);
    assert!(combined.get_vertex());
}

#[test]
fn precision_of_indices() {
    assert_eq!(calc_prec(0), 0);
    assert_eq!(calc_prec(1), 1);
    assert_eq!(calc_prec(255), 8);
    assert_eq!(calc_prec(256), 9);
    assert_eq!(calc_sw_size(0), 1);
}

#[test]
fn split_score_and_ranges() {
    // 100 indices saving 8 bits each, less the header cost.
    assert_eq!(calc_spilt_score(100, (0xFFFF, 0xFF)), 100 * 8 - 8 * (6 + 1 + 4));
    let mut tris: Vec<u32> = (0..64).map(|i| i % 4).collect();
    tris.extend((0..64).map(|i| 60000 + i));
    let ranges = opt_tris(&tris).into_ranges();
    assert_eq!(ranges.first().unwrap().0, 0);
    assert_eq!(ranges.last().unwrap().1, tris.len());
    assert!(ranges.len() >= 2);
    let whole = opt_tris(&[1, 2, 3]).into_ranges();
    assert_eq!(whole, vec![(0, 3)]);
}

#[test]
fn small_types() {
    let info = MaterialInfo::create(vec!["steel".to_string()], vec![(0, 12)]);
    let _copy = info.clone();
    let _meta = FileMetadata::empty();
    assert_eq!(vec_first(vec![5, 6]), 5);
}
