use tmf::tmf::{
    merge_segments, CompressionType, DecodedSegment, EncodedSegment, SectionType,
    SharedSegmentKind,
};
use tmf::tmf_importer::{TMFHeader, TMFImportContext};
use tmf::{TMFImportError, MIN_TMF_MAJOR, MIN_TMF_MINOR, TMF_MAJOR, TMF_MINOR};

type Seg = DecodedSegment<(f32, f32, f32), (f32, f32), ((f32, f32, f32), f32), ()>;

fn current_ctx() -> TMFImportContext {
    TMFImportContext::init_header(TMFHeader {
        major: TMF_MAJOR,
        minor: TMF_MINOR,
        min_major: MIN_TMF_MAJOR,
        min_minor: MIN_TMF_MINOR,
    })
}

#[test]
fn test_triangles_opt() {
    let mut tmp = Vec::with_capacity(1_000_000);
    for i in 0..1000 {
        tmp.push(i);
    }
    let tris = Seg::AppendTriangleVertex(tmp);
    let tris = tris.optimize();
    let tris: Vec<EncodedSegment> = tris
        .into_iter()
        .map(|seg| seg.encode_triangles().unwrap())
        .collect();
    let ctx = current_ctx();
    let tris: Vec<Seg> = tris
        .into_iter()
        .map(|seg| {
            let seg: Seg = Seg::decode(seg, &ctx).unwrap();
            seg
        })
        .collect();
    let mut curr = 0;
    for seg in tris.iter() {
        let values = if let Seg::AppendTriangleVertex(vals) = seg {
            vals
        } else {
            panic!()
        };
        for value in values.iter() {
            assert_eq!(*value, curr);
            curr += 1;
        }
    }
    assert_eq!(curr, 1000);
}

fn mask_of(seg: &Seg) -> Option<(u8, Vec<u32>)> {
    match seg {
        Seg::SharedTriangleSegment(kind, t) => Some((kind.mask(), t.clone())),
        _ => None,
    }
}

#[test]
fn merge_shares_equal_triangles() {
    let mut uv = Seg::AppendTriangleUV(vec![0, 1, 2]);
    let mut vertex = Seg::AppendTriangleVertex(vec![0, 1, 2]);
    uv.merge(&mut vertex);
    assert_eq!(mask_of(&uv), Some((0x4 | 0x1, vec![0, 1, 2])));
    assert!(!vertex.is_something());
    let mut normal = Seg::AppendTriangleNormal(vec![0, 1, 2]);
    uv.merge(&mut normal);
    assert_eq!(mask_of(&uv), Some((0x7, vec![0, 1, 2])));
}

#[test]
fn merge_keeps_different_triangles() {
    let mut vertex = Seg::AppendTriangleVertex(vec![0, 1, 2]);
    let mut normal = Seg::AppendTriangleNormal(vec![0, 2, 1]);
    vertex.merge(&mut normal);
    assert!(matches!(vertex, Seg::AppendTriangleVertex(_)));
    assert!(matches!(normal, Seg::AppendTriangleNormal(_)));
    // Only vertex and normal triangle segments are merged into others.
    let mut a = Seg::AppendTriangleVertex(vec![3]);
    let mut b = Seg::AppendTriangleUV(vec![3]);
    a.merge(&mut b);
    assert!(matches!(a, Seg::AppendTriangleVertex(_)));
    assert!(matches!(b, Seg::AppendTriangleUV(_)));
}

#[test]
fn merge_segments_from_the_last() {
    let segs: Vec<Seg> = vec![
        Seg::AppendTriangleVertex(vec![0, 1, 2]),
        Seg::Nothing,
        Seg::AppendTriangleNormal(vec![0, 1, 2]),
        Seg::AppendTriangleUV(vec![0, 1, 2]),
    ];
    let merged = merge_segments(segs);
    assert_eq!(merged.len(), 1);
    assert_eq!(mask_of(&merged[0]), Some((0x7, vec![0, 1, 2])));
}

#[test]
fn shared_segment_roundtrip() {
    let mut kind = SharedSegmentKind::empty();
    kind.set_vertex();
    kind.set_uv();
    let seg = Seg::SharedTriangleSegment(kind, vec![5, 9, 7, 5]);
    let encoded = seg.encode_triangles().unwrap();
    assert_eq!(encoded.seg_type, SectionType::SharedTriangleSegment);
    assert_eq!(encoded.data[0], 0x5);
    let decoded = Seg::decode(encoded, &current_ctx()).unwrap();
    assert_eq!(mask_of(&decoded), Some((0x5, vec![5, 9, 7, 5])));
}

#[test]
fn other_segments_are_not_encoded_here() {
    let seg = Seg::AppendVertex(vec![(0.0, 1.0, 2.0)]);
    assert!(seg.encode_triangles().is_none());
    let nothing = Seg::Nothing.encode_triangles().unwrap();
    assert_eq!(nothing.seg_type, SectionType::Invalid);
    assert!(nothing.data.is_empty());
}

#[test]
fn optimize_keeps_other_segments() {
    let seg = Seg::AppendUV(vec![(0.5, 0.5)]);
    let parts = seg.optimize();
    assert_eq!(parts.len(), 1);
    assert!(matches!(parts[0], Seg::AppendUV(_)));
}

#[test]
fn decode_reports_short_data() {
    let seg = EncodedSegment {
        seg_type: SectionType::NormalTriangleSegment,
        compresion_type: CompressionType::NoCompression,
        data: vec![3, 1],
    };
    assert!(matches!(Seg::decode(seg, &current_ctx()), Err(TMFImportError::IO(_))));
}
