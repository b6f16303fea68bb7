use tmf::custom_data::{custom_readable, CustomDataSegment, DataSegmentError, RawCustomData};
use tmf::mesh::TMFMesh;
use tmf::model_importer::ModelImporter;
use tmf::normals::normals_readable;
use tmf::read_extension::ByteReader;
use tmf::tmf::{plan_segments, CompressionType, DecodedSegment, EncodedSegment, SectionType};
use tmf::tmf_exporter::{write_mesh_segments, write_tmf_header};
use tmf::tmf_importer::{read_mesh_segments, read_tmf_start, segment_totals, TMFHeader, TMFImportContext};
use tmf::verify::{check_triangles, IndexError};
use tmf::vertices::zero_width_pairs;
use tmf::{single_mesh, StreamError, TMFImportError, MIN_TMF_MAJOR, MIN_TMF_MINOR, TMF_MAJOR, TMF_MINOR};

type V3 = (f32, f32, f32);
type V2 = (f32, f32);
type Tan = (V3, f32);
type Mesh = TMFMesh<V3, V2, Tan, u32>;
type Seg = DecodedSegment<V3, V2, Tan, CustomDataSegment<u32>>;

fn current_ctx() -> TMFImportContext {
    TMFImportContext::init_header(TMFHeader {
        major: TMF_MAJOR,
        minor: TMF_MINOR,
        min_major: MIN_TMF_MAJOR,
        min_minor: MIN_TMF_MINOR,
    })
}

fn triangle_mesh() -> Mesh {
    let mut mesh = Mesh::empty();
    mesh.set_vertices(vec![(0.0, 0.0, 0.0), (1.0, 0.0, 0.0), (0.0, 1.0, 0.0)]);
    mesh.set_vertex_triangles(vec![0, 1, 2]);
    mesh.set_normals(vec![(0.0, 0.0, 1.0)]);
    mesh.set_normal_triangles(vec![0, 0, 0]);
    mesh
}

#[test]
fn mesh_set_and_get() {
    let mut mesh = triangle_mesh();
    assert_eq!(mesh.get_vertices().unwrap().len(), 3);
    assert_eq!(mesh.get_vertex_triangles().unwrap(), &[0, 1, 2]);
    assert!(mesh.get_uvs().is_none());
    let old = mesh.set_vertex_triangles(vec![2, 1, 0]).unwrap();
    assert_eq!(old, vec![0, 1, 2]);
    assert_eq!(mesh.get_vertex_triangles().unwrap(), &[2, 1, 0]);
    assert!(Mesh::empty().set_uvs(vec![(0.5, 0.5)]).is_none());
}

#[test]
fn mesh_append_creates_and_extends() {
    let mut mesh = Mesh::empty();
    mesh.append_uv_triangles(&[1, 2]);
    assert_eq!(mesh.get_uv_triangles().unwrap(), &[1, 2]);
    mesh.append_uv_triangles(&[3]);
    assert_eq!(mesh.get_uv_triangles().unwrap(), &[1, 2, 3]);
    mesh.append_tangents(&[((1.0, 0.0, 0.0), -1.0)]);
    assert_eq!(mesh.get_tangents().unwrap().len(), 1);
}

#[test]
fn mesh_buffers() {
    let mesh = triangle_mesh();
    let buffer = mesh.get_vertex_buffer().unwrap();
    assert_eq!(buffer, vec![(0.0, 0.0, 0.0), (1.0, 0.0, 0.0), (0.0, 1.0, 0.0)]);
    let normals = mesh.get_normal_buffer().unwrap();
    assert_eq!(normals, vec![(0.0, 0.0, 1.0); 3]);
    assert!(mesh.get_uv_buffer().is_none());
}

#[test]
fn custom_data_lookup() {
    let mut mesh = Mesh::empty();
    assert_eq!(mesh.add_custom_data(7, "weights"), Ok(()));
    assert_eq!(mesh.add_custom_data(8, "weights"), Ok(()));
    assert_eq!(mesh.add_custom_data(9, ""), Err(DataSegmentError::NoName));
    let long = "x".repeat(256);
    assert_eq!(mesh.add_custom_data(9, &long), Err(DataSegmentError::NameTooLong));
    assert_eq!(mesh.lookup_custom_data("weights"), Some(&7));
    assert_eq!(mesh.lookup_custom_data("weight"), None);
    assert_eq!(mesh.lookup_custom_data(&long), None);
}

#[test]
fn segments_rebuild_the_mesh() {
    let mut mesh = triangle_mesh();
    mesh.add_custom_data(5, "id").unwrap();
    let segs = mesh.into_segments();
    assert_eq!(segs.len(), 5);
    let mut rebuilt = Mesh::empty();
    for seg in segs {
        seg.apply(&mut rebuilt);
    }
    assert_eq!(rebuilt.get_vertex_triangles().unwrap(), &[0, 1, 2]);
    assert_eq!(rebuilt.get_normal_triangles().unwrap(), &[0, 0, 0]);
    assert_eq!(rebuilt.get_vertices().unwrap().len(), 3);
    assert_eq!(rebuilt.lookup_custom_data("id"), Some(&5));
}

#[test]
fn shared_segment_applies_to_each_array() {
    let mut mesh = Mesh::empty();
    let mut kind = tmf::tmf::SharedSegmentKind::empty();
    kind.set_vertex();
    kind.set_uv();
    let seg: Seg = DecodedSegment::SharedTriangleSegment(kind, vec![4, 5, 6]);
    seg.apply(&mut mesh);
    assert_eq!(mesh.get_vertex_triangles().unwrap(), &[4, 5, 6]);
    assert_eq!(mesh.get_uv_triangles().unwrap(), &[4, 5, 6]);
    assert!(mesh.get_normal_triangles().is_none());
}

#[test]
fn planned_segments_share_equal_triangles() {
    let mut mesh = Mesh::empty();
    mesh.set_vertex_triangles(vec![0, 1, 2]);
    mesh.set_normal_triangles(vec![0, 1, 2]);
    let planned = plan_segments(mesh.into_segments());
    assert_eq!(planned.len(), 1);
    match &planned[0] {
        DecodedSegment::SharedTriangleSegment(kind, t) => {
            assert_eq!(kind.mask(), 0x3);
            assert_eq!(t, &vec![0, 1, 2]);
        },
        _ => panic!("expected a shared segment"),
    }
}

#[test]
fn mesh_file_roundtrip() {
    let segs = vec![
        EncodedSegment {
            seg_type: SectionType::VertexTriangleSegment,
            compresion_type: CompressionType::NoCompression,
            data: vec![1, 2, 3],
        },
        EncodedSegment {
            seg_type: SectionType::NormalSegment,
            compresion_type: CompressionType::NoCompression,
            data: vec![],
        },
    ];
    let mut out = Vec::new();
    write_tmf_header(&mut out, 1);
    write_mesh_segments(&mut out, "cube", &segs);
    let mut reader = ByteReader::new(&out);
    let (ctx, count) = read_tmf_start(&mut reader).unwrap();
    assert_eq!(count, 1);
    let (name, read) = read_mesh_segments(&ctx, &mut reader).unwrap();
    assert_eq!(name, "cube");
    assert_eq!(read.len(), 2);
    assert_eq!(read[0].seg_type, SectionType::VertexTriangleSegment);
    assert_eq!(read[0].data, vec![1, 2, 3]);
    assert_eq!(read[1].seg_type, SectionType::NormalSegment);
    assert!(reader.remaining().is_empty());
}

#[test]
fn mesh_file_truncated() {
    let mut out = Vec::new();
    write_mesh_segments(&mut out, "m", &[]);
    out.pop();
    let ctx = current_ctx();
    let mut reader = ByteReader::new(&out);
    assert!(matches!(
        read_mesh_segments(&ctx, &mut reader),
        Err(TMFImportError::IO(StreamError::UnexpectedEof))
    ));
}

#[test]
fn single_mesh_counts() {
    assert_eq!(single_mesh::<u8>(vec![]), Err(TMFImportError::NoMeshes));
    assert_eq!(single_mesh(vec![1u8, 2]), Err(TMFImportError::TooManyMeshes));
    assert_eq!(single_mesh(vec![3u8]), Ok(3));
}

#[test]
fn triangle_checks() {
    assert_eq!(check_triangles(None, Some(&[0])), Err(IndexError::ArrayMissing));
    assert_eq!(check_triangles(None, None), Ok(()));
    assert_eq!(check_triangles(Some(2), None), Ok(()));
    assert_eq!(check_triangles(Some(3), Some(&[0, 2, 1])), Ok(()));
    assert_eq!(check_triangles(Some(3), Some(&[0, 3, 7])), Err(IndexError::IndexOutside(3, 3)));
}

#[test]
fn readability_checks() {
    let mut zero_prec = vec![0u8];
    zero_prec.extend_from_slice(&2u64.to_le_bytes());
    assert!(zero_width_pairs(&zero_prec, false));
    assert!(!zero_width_pairs(&zero_prec, true));
    let mut normals = 3u64.to_le_bytes().to_vec();
    normals.push(0);
    assert!(!normals_readable(&normals));
    normals[8] = 7;
    assert!(normals_readable(&normals));
    let ctx = current_ctx();
    assert!(!custom_readable(&[0], SectionType::VertexSegment, &ctx));
    assert!(custom_readable(&[0], SectionType::CustomFloatSegment, &ctx));
}

#[test]
fn try_decode_refuses_what_it_cannot_decode() {
    let ctx = current_ctx();
    let vertices = EncodedSegment {
        seg_type: SectionType::VertexSegment,
        compresion_type: CompressionType::NoCompression,
        data: vec![],
    };
    assert!(Seg::try_decode(vertices, &ctx).is_none());
    let compressed = EncodedSegment {
        seg_type: SectionType::VertexTriangleSegment,
        compresion_type: CompressionType::UnalignedLZZ,
        data: vec![],
    };
    assert!(Seg::try_decode(compressed, &ctx).is_none());
    let nothing = EncodedSegment {
        seg_type: SectionType::Invalid,
        compresion_type: CompressionType::NoCompression,
        data: vec![],
    };
    assert!(matches!(Seg::try_decode(nothing, &ctx), Some(Ok(DecodedSegment::Nothing))));
}

#[test]
fn imported_parts_become_a_mesh() {
    let mut importer: ModelImporter<V3, V2> = ModelImporter::new();
    importer.push_vertex((0.0, 0.0, 0.0));
    importer.push_vertex((1.0, 0.0, 0.0));
    importer.push_vertex((0.0, 1.0, 0.0));
    importer.push_uv((0.0, 0.0));
    importer.push_normal((0.0, 0.0, 1.0));
    importer.push_face(&[0, 1, 2], &[0, 0, 0], &[0, 0, 0]).unwrap();
    let (parts, _name) = importer.finish();
    let mesh: Mesh = parts.into_mesh();
    assert_eq!(mesh.get_vertex_triangles().unwrap(), &[0, 1, 2]);
    assert_eq!(mesh.get_uv_triangles().unwrap(), &[0, 0, 0]);
    let raw = RawCustomData::new_index(&[1, 2], None);
    assert!(matches!(raw, RawCustomData::CustomIndex(_, 2)));
}

#[test]
fn written_mesh_rebuilds() {
    let mut mesh = Mesh::empty();
    let tris: Vec<u32> = (0..300).map(|i| if i < 150 { i % 7 } else { 1000 + i }).collect();
    mesh.set_vertex_triangles(tris.clone());
    mesh.set_normal_triangles(tris.clone());
    mesh.set_uv_triangles(vec![3, 2, 1]);
    mesh.set_tangent_triangles((0..200).rev().collect());
    mesh.add_custom_data(1, "first").unwrap();
    mesh.add_custom_data(2, "second").unwrap();
    let planned = plan_segments(mesh.clone().into_segments());
    let mut rebuilt = Mesh::empty();
    for seg in planned {
        seg.apply(&mut rebuilt);
    }
    assert_eq!(rebuilt.get_vertex_triangles().unwrap(), &tris[..]);
    assert_eq!(rebuilt.get_normal_triangles().unwrap(), &tris[..]);
    assert_eq!(rebuilt.get_uv_triangles().unwrap(), &[3, 2, 1]);
    assert_eq!(rebuilt.get_tangent_triangles().unwrap(), mesh.get_tangent_triangles().unwrap());
    assert!(rebuilt.get_vertices().is_none());
    // The custom segments come back in reverse order: a name used twice finds the later one.
    let mut twice = Mesh::empty();
    twice.add_custom_data(1, "same").unwrap();
    twice.add_custom_data(2, "same").unwrap();
    let mut back = Mesh::empty();
    for seg in plan_segments(twice.into_segments()) {
        seg.apply(&mut back);
    }
    assert_eq!(back.lookup_custom_data("same"), Some(&2));
    assert_eq!(rebuilt.lookup_custom_data("first"), Some(&1));
    assert_eq!(rebuilt.lookup_custom_data("second"), Some(&2));
}

#[test]
fn segment_totals_by_kind() {
    let seg = |seg_type, data| EncodedSegment { seg_type, compresion_type: CompressionType::NoCompression, data };
    let segs = vec![
        seg(SectionType::VertexTriangleSegment, vec![1, 2, 3]),
        seg(SectionType::NormalSegment, vec![0; 5]),
        seg(SectionType::VertexTriangleSegment, vec![9]),
    ];
    let totals = segment_totals(&segs);
    assert_eq!(totals.len(), 256);
    assert_eq!(totals[2], 4);
    assert_eq!(totals[3], 5);
    assert_eq!(totals[0], 0);
}

#[test]
fn triangle_mesh_file_roundtrip() {
    let mut mesh = Mesh::empty();
    let tris: Vec<u32> = (0..600).map(|i| if i < 300 { (i * 7) % 50 } else { 5000 + (i % 13) }).collect();
    mesh.set_vertex_triangles(tris.clone());
    mesh.set_normal_triangles(tris.clone());
    mesh.set_uv_triangles(vec![9, 8, 7, 6, 5, 4]);
    let planned = plan_segments(mesh.clone().into_segments());
    let encoded: Vec<EncodedSegment> = planned.iter().map(|s| s.encode_triangles().unwrap()).collect();
    let mut out = Vec::new();
    write_tmf_header(&mut out, 1);
    write_mesh_segments(&mut out, "tris", &encoded);
    let mut reader = ByteReader::new(&out);
    let (ctx, count) = read_tmf_start(&mut reader).unwrap();
    assert_eq!(count, 1);
    let (name, read) = read_mesh_segments(&ctx, &mut reader).unwrap();
    assert_eq!(name, "tris");
    let mut back = Mesh::empty();
    for seg in read {
        Seg::try_decode(seg, &ctx).unwrap().unwrap().apply(&mut back);
    }
    assert_eq!(back.get_vertex_triangles().unwrap(), &tris[..]);
    assert_eq!(back.get_normal_triangles().unwrap(), &tris[..]);
    assert_eq!(back.get_uv_triangles().unwrap(), &[9, 8, 7, 6, 5, 4]);
    assert!(back.get_tangent_triangles().is_none());
}

#[test]
fn color_segment_survives_a_file() {
    let data = RawCustomData::CustomColorRGBA(6, vec![0, 63, 17, 42]);
    let seg = CustomDataSegment::new(data, "custom_color_rgba").unwrap();
    let mut bytes = Vec::new();
    let kind = seg.encode(&mut bytes);
    let segs = vec![EncodedSegment { seg_type: kind, compresion_type: CompressionType::NoCompression, data: bytes }];
    let mut out = Vec::new();
    write_tmf_header(&mut out, 1);
    write_mesh_segments(&mut out, "Suzanne", &segs);
    let mut reader = ByteReader::new(&out);
    let (ctx, _) = read_tmf_start(&mut reader).unwrap();
    let (name, read) = read_mesh_segments(&ctx, &mut reader).unwrap();
    assert_eq!(name, "Suzanne");
    assert_eq!(read[0].seg_type, SectionType::CustomColorSegment);
    assert!(custom_readable(&read[0].data, read[0].seg_type, &ctx));
    let back = CustomDataSegment::read(&read[0].data, read[0].seg_type, &ctx).unwrap();
    match back.custom_data() {
        RawCustomData::CustomColorRGBA(prec, codes) => {
            assert_eq!(*prec, 6);
            assert_eq!(codes, &vec![0, 63, 17, 42]);
        }
        _ => panic!("not color data"),
    }
}

#[test]
fn default_triangles_are_appended() {
    let triangles = [3u32, 1, 4, 1, 5];
    let mut buf = Vec::new();
    tmf::vertices::save_triangles(&triangles, 5, &mut buf);
    let ctx = current_ctx();
    let mut data = vec![100u32, 200];
    tmf::tmf_importer::read_default_triangles(&buf, &mut data, &ctx).unwrap();
    assert_eq!(data, vec![100, 200, 3, 1, 4, 1, 5]);
    let mut kept = vec![9u32];
    assert!(tmf::tmf_importer::read_default_triangles(&buf[..3], &mut kept, &ctx).is_err());
    assert_eq!(kept, vec![9]);
}
