use tmf::obj::{face_indices, line_kind, load_indices, match_split, parse_index, ObjError, ObjLineKind};
use tmf::pile_map::PileMap;
use tmf::unify_data::{is_merge_needed, merge_data_2, merge_data_3, smart_merge_data_3, unfiy_data_common};
use tmf::utilis::{fast_prune, optimize_triangle_indices};
use tmf::verify::indices_inside_array;

#[test]
fn pile_map_push() {
    let mut map = PileMap::new();
    assert_eq!(map.push(7u32), 0);
    assert_eq!(map.push(9u32), 1);
    assert_eq!(map.push(7u32), 0);
    assert_eq!(map.push(9u32), 1);
    assert_eq!(map.push(5u32), 2);
    assert_eq!(map.push(5u32), 2);
    let mut other: PileMap<u8> = PileMap::with_capacity(2);
    assert_eq!(other.push(3), 0);
}

#[test]
fn obj_index_parsing() {
    assert_eq!(parse_index("42"), 42);
    assert_eq!(parse_index("+7"), 7);
    assert_eq!(parse_index(""), 1);
    assert_eq!(parse_index("x1"), 1);
    assert_eq!(parse_index("4294967296"), 1);
    assert_eq!(parse_index("4294967295"), 4294967295);
    assert_eq!(parse_index("0004294967295"), 4294967295);
    assert_eq!(parse_index("42949672950"), 1);
    assert_eq!(parse_index("4294967299"), 1);
    assert_eq!(parse_index("12a"), 1);
    assert_eq!(parse_index("+"), 1);
    assert_eq!(parse_index("-3"), 1);
    assert_eq!(parse_index("-0"), 1);
    assert_eq!(parse_index("++3"), 1);
    assert_eq!(parse_index(" 3"), 1);
    assert_eq!(parse_index("\u{663}"), 1);
    assert_eq!(match_split(Some("v")), Ok("v"));
    assert_eq!(match_split(None), Err(ObjError::InvalidLine));
}

#[test]
fn obj_face_indices() {
    let items = ["1", "2", "3", "4", "5", "6", "7", "8"];
    assert_eq!(load_indices(&items, 0), Ok((0, 1, 2)));
    assert_eq!(load_indices(&items, 6), Err(ObjError::InvalidLine));
    assert_eq!(load_indices(&["0", "1", "1"], 0), Err(ObjError::InvalidIndex));
    let (v, t, n) = face_indices(&items);
    assert_eq!((v, t, n), (vec![0, 3], vec![1, 4], vec![2, 5]));
    // An empty item parses as index 1.
    let (v, t, n) = face_indices(&["3", "", "2"]);
    assert_eq!((v, t, n), (vec![2], vec![0], vec![1]));
}

#[test]
fn indices_outside_array() {
    assert_eq!(indices_inside_array(&[0, 1, 2], 3), None);
    assert_eq!(indices_inside_array(&[0, 3, 5], 3), Some(3));
    assert_eq!(indices_inside_array(&[], 0), None);
}

#[test]
fn fast_prune_removes_leading_unused() {
    let mut data = vec!['a', 'b', 'c', 'd', 'e'];
    let mut indices = vec![2u32, 4, 3];
    fast_prune(&mut data, &mut indices);
    assert_eq!(data, vec!['c', 'd', 'e']);
    assert_eq!(indices, vec![0, 2, 1]);
    let mut data = vec![1, 2, 3];
    let mut indices = vec![2u32, 0];
    fast_prune(&mut data, &mut indices);
    assert_eq!(data, vec![1, 2, 3]);
    assert_eq!(indices, vec![2, 0]);
}

#[test]
fn optimize_triangle_indices_renumbers() {
    let (indices, data) = optimize_triangle_indices(&[3, 1, 3, 0], &['a', 'b', 'c', 'd']);
    assert_eq!(indices, vec![0, 1, 0, 2]);
    assert_eq!(data, vec!['a', 'b', 'c', 'd']);
    let (indices, _) = optimize_triangle_indices(&[], &['a']);
    assert!(indices.is_empty());
}

#[test]
fn unify_combinations() {
    let a = [0u32, 1, 0, 1];
    let b = [5u32, 5, 5, 6];
    let (new_indices, map) = unfiy_data_common(&[&a, &b]);
    assert_eq!(new_indices, vec![0, 1, 0, 2]);
    assert_eq!(map, vec![vec![0, 1, 1], vec![5, 5, 6]]);
}

#[test]
fn unify_many_arrays() {
    let a = [0u32, 0, 0, 0, 1];
    let b = [1u32, 1, 1, 2, 1];
    let c = [2u32, 2, 3, 2, 2];
    let d = [3u32, 3, 3, 3, 3];
    let e = [4u32, 4, 4, 4, 4];
    let f = [5u32, 5, 5, 5, 5];
    let (new_indices, map) = unfiy_data_common(&[&a, &b, &c, &d, &e, &f]);
    assert_eq!(new_indices, vec![0, 0, 1, 2, 3]);
    assert_eq!(
        map,
        vec![
            vec![0, 0, 0, 1],
            vec![1, 1, 2, 1],
            vec![2, 3, 2, 2],
            vec![3, 3, 3, 3],
            vec![4, 4, 4, 4],
            vec![5, 5, 5, 5],
        ]
    );
}

#[test]
fn merge_data_maps_back() {
    let vertex_idx = [0u32, 1, 2, 0];
    let normal_idx = [0u32, 0, 1, 1];
    let vertices = ['a', 'b', 'c'];
    let normals = [10, 20];
    let (indices, v, n) = merge_data_2(&[&vertex_idx, &normal_idx], &vertices, &normals);
    for p in 0..4 {
        assert_eq!(v[indices[p] as usize], vertices[vertex_idx[p] as usize]);
        assert_eq!(n[indices[p] as usize], normals[normal_idx[p] as usize]);
    }
    assert_eq!(v.len(), 4);
    let (indices3, _, _, c) = merge_data_3(&[&vertex_idx, &vertex_idx, &normal_idx], &vertices, &vertices, &normals);
    assert_eq!(indices3, vec![0, 1, 2, 3]);
    assert_eq!(c, vec![10, 10, 20, 20]);
}

#[test]
fn merge_needed_only_for_differing_arrays() {
    let a = [1u32, 2];
    let b = [1u32, 2];
    let c = [2u32, 1];
    assert!(!is_merge_needed(&[Some(&a), None, Some(&b)]));
    assert!(is_merge_needed(&[Some(&a), None, Some(&c)]));
    assert!(!is_merge_needed(&[None, None]));
}

#[test]
fn smart_merge_leaves_out_missing_data() {
    let vi = [0u32, 1];
    let ni = [1u32, 0];
    let ui = [0u32, 0];
    let v = [1.0f32, 2.0];
    let n = [3.0f32, 4.0];
    let empty: [f32; 0] = [];
    let (a, b, c, idx) = smart_merge_data_3(Some(&v), Some(&n), Some(&empty), [Some(&vi), Some(&ni), Some(&ui)]);
    assert!(c.is_none());
    assert_eq!(a.unwrap(), vec![1.0, 2.0]);
    assert_eq!(b.unwrap(), vec![4.0, 3.0]);
    assert_eq!(idx.unwrap(), vec![0, 1]);
}

#[test]
fn obj_line_kinds() {
    assert_eq!(line_kind("v"), ObjLineKind::Vertex);
    assert_eq!(line_kind("vn"), ObjLineKind::Normal);
    assert_eq!(line_kind("vt"), ObjLineKind::Uv);
    assert_eq!(line_kind("f"), ObjLineKind::Face);
    assert_eq!(line_kind("o"), ObjLineKind::Object);
    for ignored in ["#", "mtllib", "usemtl", "s", "vp", "", "V", "fo", "vnt"] {
        assert_eq!(line_kind(ignored), ObjLineKind::Ignored, "{ignored}");
    }
}
