//! The parts of reading Wavefront .obj files that need no floats: telling lines apart by
//! their first item, parsing indices and splitting a face into its index triples, and the
//! face indices that writing gives each triangle.
use crate::IndexType;
use vstd::prelude::*;
use vstd::string::StringSliceAdditionalSpecFns;

verus! {

/// Why a line of an .obj file could not be read.
#[derive(Clone, Copy, Debug, PartialEq, Eq, Structural)]
pub enum ObjError {
    /// A line ended before all the items it needs.
    InvalidLine,
    /// A face refers to index 0, while .obj indices start at 1.
    InvalidIndex,
}

/// The ASCII codes of `0`, `9` and `+`.
pub const DIGIT_ZERO: u8 = 48;
pub const DIGIT_NINE: u8 = 57;
pub const PLUS_SIGN: u8 = 43;

/// The value of a string of decimal digits, given by their ASCII codes.
pub open spec fn decimal_value(s: Seq<u8>) -> nat
    decreases s.len(),
{
    if s.len() == 0 {
        0
    } else {
        (decimal_value(s.drop_last()) * 10 + (s.last() - DIGIT_ZERO)) as nat
    }
}

/// All bytes are ASCII decimal digits, and there is at least one.
pub open spec fn all_digits(s: Seq<u8>) -> bool {
    s.len() > 0 && forall|i: int| 0 <= i < s.len() ==> DIGIT_ZERO <= #[trigger] s[i] <= DIGIT_NINE
}

/// What parsing the bytes `s` of a string as a `u32` gives: an optional `+` followed by
/// decimal digits whose value fits in a `u32`, or nothing (a `-` sign, whitespace, an empty
/// string and a lone `+` among the rest).
pub open spec fn spec_parse_u32(s: Seq<u8>) -> Option<u32> {
    let digits = if s.len() > 0 && s[0] == PLUS_SIGN {
        s.skip(1)
    } else {
        s
    };
    if all_digits(digits) && decimal_value(digits) <= u32::MAX {
        Some(decimal_value(digits) as u32)
    } else {
        None
    }
}

/// A string of digits is worth at least as much as any of its beginnings.
proof fn lemma_decimal_prefix(s: Seq<u8>, k: int)
    requires
        0 <= k <= s.len(),
        forall|i: int| 0 <= i < s.len() ==> DIGIT_ZERO <= #[trigger] s[i] <= DIGIT_NINE,
    ensures
        decimal_value(s.take(k)) <= decimal_value(s),
    decreases s.len(),
{
    if k < s.len() {
        let t = s.drop_last();
        assert forall|i: int| 0 <= i < t.len() implies DIGIT_ZERO <= #[trigger] t[i] <= DIGIT_NINE by {
            assert(t[i] == s[i]);
        }
        lemma_decimal_prefix(t, k);
        assert(t.take(k) =~= s.take(k));
        assert(s[s.len() - 1] >= DIGIT_ZERO);
    } else {
        assert(s.take(k) =~= s);
    }
}

/// Parses a string as a decimal `u32`, as `str::parse` does: an optional `+` followed by one
/// or more decimal digits whose value fits in a `u32` gives that value; anything else gives
/// nothing.
fn parse_u32(s: &str) -> (res: Option<u32>)
    ensures
        res == spec_parse_u32(s.spec_bytes()),
{
    parse_u32_bytes(s.as_bytes())
}

/// Parses the bytes of a string as a decimal `u32` (see [`parse_u32`]).
fn parse_u32_bytes(b: &[u8]) -> (res: Option<u32>)
    ensures
        res == spec_parse_u32(b@),
{
    let ghost bytes = b@;
    let start: usize = if b.len() > 0 && b[0] == PLUS_SIGN {
        1
    } else {
        0
    };
    let ghost digits = bytes.skip(start as int);
    proof {
        assert(digits == if bytes.len() > 0 && bytes[0] == PLUS_SIGN {
            bytes.skip(1)
        } else {
            bytes
        }) by {
            if start == 0 {
                assert(bytes.skip(0) =~= bytes);
            }
        }
    }
    if start >= b.len() {
        return None;
    }
    let mut value: u32 = 0;
    let mut i: usize = start;
    proof {
        assert(digits.take(0) =~= Seq::<u8>::empty());
    }
    while i < b.len()
        invariant
            start <= i <= b@.len(),
            start < b@.len(),
            bytes == b@,
            digits == bytes.skip(start as int),
            digits == if bytes.len() > 0 && bytes[0] == PLUS_SIGN {
                bytes.skip(1)
            } else {
                bytes
            },
            forall|j: int| 0 <= j < i - start ==> DIGIT_ZERO <= #[trigger] digits[j] <= DIGIT_NINE,
            value == decimal_value(digits.take(i - start)),
        decreases b@.len() - i,
    {
        let c = b[i];
        proof {
            assert(digits[i - start] == c);
        }
        if c < DIGIT_ZERO || c > DIGIT_NINE {
            proof {
                assert(!all_digits(digits));
            }
            return None;
        }
        let d = (c - DIGIT_ZERO) as u32;
        let ghost next = digits.take(i - start + 1);
        assert(decimal_value(next) == value * 10 + d) by {
            assert(next.drop_last() =~= digits.take(i - start));
            assert(next.last() == c);
        }
        if value > 429496729 || (value == 429496729 && d > 5) {
            assert(spec_parse_u32(bytes) is None) by {
                if all_digits(digits) {
                    lemma_decimal_prefix(digits, i - start + 1);
                }
            }
            return None;
        }
        value = value * 10 + d;
        i = i + 1;
    }
    proof {
        assert(digits.take(i - start) =~= digits);
    }
    Some(value)
}

/// An .obj index: the number in `uint`, or 1 where it is not a number.
pub fn parse_index(uint: &str) -> (index: IndexType)
    ensures
        index == match spec_parse_u32(uint.spec_bytes()) {
            Some(v) => v,
            None => 1,
        },
{
    match parse_u32(uint) {
        Some(uint) => uint,
        None => 1,
    }
}

/// The next item of a line, where there is one.
pub fn match_split(split: Option<&str>) -> (res: Result<&str, ObjError>)
    ensures
        match split {
            Some(s) => res == Ok::<&str, ObjError>(s),
            None => res == Err::<&str, ObjError>(ObjError::InvalidLine),
        },
{
    match split {
        Some(beg) => Ok(beg),
        None => Err(ObjError::InvalidLine),
    }
}

/// What a line of an .obj file holds, as told by its first item.
#[derive(Clone, Copy, Debug, PartialEq, Eq, Structural)]
pub enum ObjLineKind {
    /// `v`: a vertex.
    Vertex,
    /// `vn`: a normal.
    Normal,
    /// `vt`: a texture coordinate.
    Uv,
    /// `f`: a face.
    Face,
    /// `o`: the start of a new object.
    Object,
    /// Anything else: comments (`#`), materials (`mtllib`, `usemtl`), smoothing groups (`s`)
    /// and lines this reader does not know.
    Ignored,
}

/// The ASCII letters that start the lines this reader takes in.
pub const LETTER_V: u8 = 118;
pub const LETTER_N: u8 = 110;
pub const LETTER_T: u8 = 116;
pub const LETTER_F: u8 = 102;
pub const LETTER_O: u8 = 111;

/// The kind of a line whose first item has the bytes `first`.
pub open spec fn spec_line_kind(first: Seq<u8>) -> ObjLineKind {
    if first == seq![LETTER_V] {
        ObjLineKind::Vertex
    } else if first == seq![LETTER_V, LETTER_N] {
        ObjLineKind::Normal
    } else if first == seq![LETTER_V, LETTER_T] {
        ObjLineKind::Uv
    } else if first == seq![LETTER_F] {
        ObjLineKind::Face
    } else if first == seq![LETTER_O] {
        ObjLineKind::Object
    } else {
        ObjLineKind::Ignored
    }
}

/// The kind of a line, from its first item.
pub fn line_kind(first: &str) -> (kind: ObjLineKind)
    ensures
        kind == spec_line_kind(first.spec_bytes()),
{
    let b = first.as_bytes();
    let ghost s = b@;
    proof {
        assert(seq![LETTER_V].len() == 1 && seq![LETTER_F].len() == 1 && seq![LETTER_O].len() == 1);
        assert(seq![LETTER_V, LETTER_N].len() == 2 && seq![LETTER_V, LETTER_T].len() == 2);
        assert(seq![LETTER_V][0] == LETTER_V && seq![LETTER_F][0] == LETTER_F && seq![LETTER_O][0] == LETTER_O);
        assert(seq![LETTER_V, LETTER_N][0] == LETTER_V && seq![LETTER_V, LETTER_N][1] == LETTER_N);
        assert(seq![LETTER_V, LETTER_T][0] == LETTER_V && seq![LETTER_V, LETTER_T][1] == LETTER_T);
    }
    if b.len() == 1 {
        if b[0] == LETTER_V {
            proof {
                assert(s =~= seq![LETTER_V]);
            }
            ObjLineKind::Vertex
        } else if b[0] == LETTER_F {
            proof {
                assert(s =~= seq![LETTER_F]);
            }
            ObjLineKind::Face
        } else if b[0] == LETTER_O {
            proof {
                assert(s =~= seq![LETTER_O]);
            }
            ObjLineKind::Object
        } else {
            ObjLineKind::Ignored
        }
    } else if b.len() == 2 && b[0] == LETTER_V {
        if b[1] == LETTER_N {
            proof {
                assert(s =~= seq![LETTER_V, LETTER_N]);
            }
            ObjLineKind::Normal
        } else if b[1] == LETTER_T {
            proof {
                assert(s =~= seq![LETTER_V, LETTER_T]);
            }
            ObjLineKind::Uv
        } else {
            ObjLineKind::Ignored
        }
    } else {
        ObjLineKind::Ignored
    }
}

/// The index an .obj item stands for (before the shift from 1-based indices).
pub open spec fn item_index(s: &str) -> IndexType {
    match spec_parse_u32(s.spec_bytes()) {
        Some(v) => v,
        None => 1,
    }
}

/// What reading the triple of items at `pos` gives: the three 0-based indices.
pub open spec fn spec_load_indices(items: Seq<&str>, pos: int) -> Result<
    (IndexType, IndexType, IndexType),
    ObjError,
> {
    if pos + 3 > items.len() {
        Err(ObjError::InvalidLine)
    } else {
        let (i0, i1, i2) = (item_index(items[pos]), item_index(items[pos + 1]), item_index(items[pos + 2]));
        if i0 < 1 || i1 < 1 || i2 < 1 {
            Err(ObjError::InvalidIndex)
        } else {
            Ok(((i0 - 1) as IndexType, (i1 - 1) as IndexType, (i2 - 1) as IndexType))
        }
    }
}

/// Reads the triple of items at `pos`: three 1-based indices, given back 0-based.
pub fn load_indices(items: &[&str], pos: usize) -> (res: Result<(IndexType, IndexType, IndexType), ObjError>)
    ensures
        res == spec_load_indices(items@, pos as int),
{
    if pos >= items.len() || items.len() - pos < 3 {
        return Err(ObjError::InvalidLine);
    }
    let i0 = match_split(Some(items[pos]))?;
    let i1 = match_split(Some(items[pos + 1]))?;
    let i2 = match_split(Some(items[pos + 2]))?;
    let (i0, i1, i2) = (parse_index(i0), parse_index(i1), parse_index(i2));
    if i0 < 1 || i1 < 1 || i2 < 1 {
        Err(ObjError::InvalidIndex)
    } else {
        Ok((i0 - 1, i1 - 1, i2 - 1))
    }
}

/// The index triples of a face, read from `pos` on until a triple cannot be read: the vertex,
/// texture and normal indices.
pub open spec fn face_indices_from(items: Seq<&str>, pos: nat) -> (
    Seq<IndexType>,
    Seq<IndexType>,
    Seq<IndexType>,
)
    decreases items.len() - pos,
{
    match spec_load_indices(items, pos as int) {
        Ok((v, t, n)) => {
            let (vs, ts, ns) = face_indices_from(items, pos + 3);
            (seq![v] + vs, seq![t] + ts, seq![n] + ns)
        },
        Err(_) => (Seq::empty(), Seq::empty(), Seq::empty()),
    }
}

/// Reads the index triples of a face until one cannot be read: the vertex, texture and
/// normal indices.
pub fn face_indices(items: &[&str]) -> (res: (Vec<IndexType>, Vec<IndexType>, Vec<IndexType>))
    ensures
        (res.0@, res.1@, res.2@) == face_indices_from(items@, 0),
{
    let mut vertex_indices: Vec<IndexType> = Vec::new();
    let mut uv_indices: Vec<IndexType> = Vec::new();
    let mut normal_indices: Vec<IndexType> = Vec::new();
    let mut pos: usize = 0;
    let n: usize = items.len();
    loop
        invariant
            pos <= items@.len() + 3,
            n == items@.len(),
            ({
                let (vs, ts, ns) = face_indices_from(items@, pos as nat);
                (vertex_indices@ + vs, uv_indices@ + ts, normal_indices@ + ns) == face_indices_from(
                    items@,
                    0,
                )
            }),
        ensures
            (vertex_indices@, uv_indices@, normal_indices@) == face_indices_from(items@, 0),
        decreases items@.len() + 3 - pos,
    {
        match load_indices(items, pos) {
            Ok((v, t, n)) => {
                let ghost (vs, ts, ns) = face_indices_from(items@, (pos + 3) as nat);
                proof {
                    assert(vertex_indices@ + (seq![v] + vs) =~= vertex_indices@.push(v) + vs);
                    assert(uv_indices@ + (seq![t] + ts) =~= uv_indices@.push(t) + ts);
                    assert(normal_indices@ + (seq![n] + ns) =~= normal_indices@.push(n) + ns);
                }
                vertex_indices.push(v);
                uv_indices.push(t);
                normal_indices.push(n);
                pos = pos + 3;
            },
            Err(_) => {
                proof {
                    assert(vertex_indices@ + Seq::<IndexType>::empty() =~= vertex_indices@);
                    assert(uv_indices@ + Seq::<IndexType>::empty() =~= uv_indices@);
                    assert(normal_indices@ + Seq::<IndexType>::empty() =~= normal_indices@);
                }
                break ;
            },
        }
    }
    (vertex_indices, uv_indices, normal_indices)
}

/// Why a mesh cannot be written as an .obj file.
#[derive(Clone, Copy, Debug, PartialEq, Eq, Structural)]
pub enum ObjWriteError {
    /// Normal triangles without vertex triangles.
    NormalTrianglesWithoutVertexTriangles,
    /// Texture coordinate triangles without vertex triangles.
    UvTrianglesWithoutVertexTriangles,
    /// The normal triangle array is not as long as the vertex triangle array.
    NormalTriangleCountMismatch,
    /// The texture coordinate triangle array is not as long as the vertex triangle array.
    UvTriangleCountMismatch,
}

/// One corner of a face as written: its vertex index, and its texture coordinate and normal
/// indices where the mesh has them, each with its offset added.
#[derive(Clone, Copy, Debug, PartialEq, Eq, Structural)]
pub struct ObjCorner {
    pub vertex: IndexType,
    pub uv: Option<IndexType>,
    pub normal: Option<IndexType>,
}

/// The index at `i` of an optional triangle array, with `offset` added.
pub open spec fn offset_at(t: Option<&[IndexType]>, i: int, offset: IndexType) -> Option<IndexType> {
    match t {
        Some(t) => Some((t@[i] + offset) as IndexType),
        None => None,
    }
}

/// The corner at `i`: the indices there, each with its offset.
pub open spec fn corner_at(
    v: &[IndexType],
    uv_triangles: Option<&[IndexType]>,
    normal_triangles: Option<&[IndexType]>,
    offset: (IndexType, IndexType, IndexType),
    i: int,
) -> ObjCorner {
    ObjCorner {
        vertex: (v@[i] + offset.0) as IndexType,
        uv: offset_at(uv_triangles, i, offset.1),
        normal: offset_at(normal_triangles, i, offset.2),
    }
}

/// Adding the offset to each index of an optional triangle array stays within `u32`.
pub open spec fn offsets_fit(t: Option<&[IndexType]>, offset: IndexType) -> bool {
    match t {
        Some(t) => forall|i: int| 0 <= i < t@.len() ==> #[trigger] t@[i] + offset <= u32::MAX,
        None => true,
    }
}

/// Each written corner holds the vertex, texture coordinate and normal index of the triangle
/// arrays at that place, each with the offset of its kind added (so the 0-based indices of a
/// mesh become the 1-based ones of the file with offsets of 1), and no index of a kind the
/// mesh does not have.
pub proof fn lemma_corner_offsets(
    v: &[IndexType],
    uv_triangles: Option<&[IndexType]>,
    normal_triangles: Option<&[IndexType]>,
    offset: (IndexType, IndexType, IndexType),
    i: int,
)
    requires
        0 <= i < v@.len(),
        forall|k: int| 0 <= k < v@.len() ==> #[trigger] v@[k] + offset.0 <= u32::MAX,
        offsets_fit(uv_triangles, offset.1),
        offsets_fit(normal_triangles, offset.2),
        uv_triangles matches Some(u) ==> u@.len() == v@.len(),
        normal_triangles matches Some(n) ==> n@.len() == v@.len(),
    ensures
        ({
            let c = corner_at(v, uv_triangles, normal_triangles, offset, i);
            &&& c.vertex == v@[i] + offset.0
            &&& match uv_triangles {
                Some(u) => c.uv == Some((u@[i] + offset.1) as IndexType) && u@[i] + offset.1 <= u32::MAX
                    && c.uv->0 == u@[i] + offset.1,
                None => c.uv is None,
            }
            &&& match normal_triangles {
                Some(n) => c.normal == Some((n@[i] + offset.2) as IndexType) && n@[i] + offset.2
                    <= u32::MAX && c.normal->0 == n@[i] + offset.2,
                None => c.normal is None,
            }
        }),
{
    assert(v@[i] + offset.0 <= u32::MAX);
    match uv_triangles {
        Some(u) => {
            assert(u@[i] + offset.1 <= u32::MAX);
        },
        None => {},
    }
    match normal_triangles {
        Some(n) => {
            assert(n@[i] + offset.2 <= u32::MAX);
        },
        None => {},
    }
}

/// The faces of a mesh as an .obj file writes them: `None` for a mesh without vertex
/// triangles (a point cloud, which must have no other triangles either); otherwise one
/// corner per vertex triangle index, after the checks that the normal and texture
/// coordinate triangle arrays, where present, are as long. The offsets are those of the
/// meshes written before in the same file.
pub fn obj_corners(
    vertex_triangles: Option<&[IndexType]>,
    normal_triangles: Option<&[IndexType]>,
    uv_triangles: Option<&[IndexType]>,
    offset: (IndexType, IndexType, IndexType),
) -> (res: Result<Option<Vec<ObjCorner>>, ObjWriteError>)
    requires
        offsets_fit(vertex_triangles, offset.0),
        offsets_fit(uv_triangles, offset.1),
        offsets_fit(normal_triangles, offset.2),
    ensures
        match vertex_triangles {
            None => res == if normal_triangles is Some {
                Err::<Option<Vec<ObjCorner>>, ObjWriteError>(ObjWriteError::NormalTrianglesWithoutVertexTriangles)
            } else if uv_triangles is Some {
                Err::<Option<Vec<ObjCorner>>, ObjWriteError>(ObjWriteError::UvTrianglesWithoutVertexTriangles)
            } else {
                Ok::<Option<Vec<ObjCorner>>, ObjWriteError>(None)
            },
            Some(v) => if normal_triangles matches Some(n) && n@.len() != v@.len() {
                res == Err::<Option<Vec<ObjCorner>>, ObjWriteError>(ObjWriteError::NormalTriangleCountMismatch)
            } else if uv_triangles matches Some(u) && u@.len() != v@.len() {
                res == Err::<Option<Vec<ObjCorner>>, ObjWriteError>(ObjWriteError::UvTriangleCountMismatch)
            } else {
                res matches Ok(Some(c)) && c@.len() == v@.len() && (forall|i: int|
                    0 <= i < v@.len() ==> #[trigger] c@[i] == corner_at(
                        v,
                        uv_triangles,
                        normal_triangles,
                        offset,
                        i,
                    )) && (forall|i: int|
                    0 <= i < v@.len() ==> {
                        &&& (#[trigger] c@[i]).vertex == v@[i] + offset.0
                        &&& match uv_triangles {
                            Some(u) => c@[i].uv == Some((u@[i] + offset.1) as IndexType)
                                && u@[i] + offset.1 <= u32::MAX,
                            None => c@[i].uv is None,
                        }
                        &&& match normal_triangles {
                            Some(n) => c@[i].normal == Some((n@[i] + offset.2) as IndexType)
                                && n@[i] + offset.2 <= u32::MAX,
                            None => c@[i].normal is None,
                        }
                    })
            },
        },
{
    let v = match vertex_triangles {
        Some(v) => v,
        None => {
            if normal_triangles.is_some() {
                return Err(ObjWriteError::NormalTrianglesWithoutVertexTriangles);
            }
            if uv_triangles.is_some() {
                return Err(ObjWriteError::UvTrianglesWithoutVertexTriangles);
            }
            return Ok(None);
        },
    };
    if let Some(n) = normal_triangles {
        if n.len() != v.len() {
            return Err(ObjWriteError::NormalTriangleCountMismatch);
        }
    }
    if let Some(u) = uv_triangles {
        if u.len() != v.len() {
            return Err(ObjWriteError::UvTriangleCountMismatch);
        }
    }
    proof {
        assert(forall|k: int| 0 <= k < v@.len() ==> #[trigger] v@[k] + offset.0 <= u32::MAX);
    }
    let mut corners: Vec<ObjCorner> = Vec::new();
    let mut i: usize = 0;
    while i < v.len()
        invariant
            i <= v@.len(),
            forall|k: int| 0 <= k < v@.len() ==> #[trigger] v@[k] + offset.0 <= u32::MAX,
            vertex_triangles == Some(v),
            offsets_fit(vertex_triangles, offset.0),
            offsets_fit(uv_triangles, offset.1),
            offsets_fit(normal_triangles, offset.2),
            normal_triangles matches Some(n) ==> n@.len() == v@.len(),
            uv_triangles matches Some(u) ==> u@.len() == v@.len(),
            corners@.len() == i,
            forall|k: int|
                0 <= k < i ==> #[trigger] corners@[k] == corner_at(
                    v,
                    uv_triangles,
                    normal_triangles,
                    offset,
                    k,
                ),
        decreases v@.len() - i,
    {
        let uv = match uv_triangles {
            Some(u) => Some(u[i] + offset.1),
            None => None,
        };
        let normal = match normal_triangles {
            Some(n) => Some(n[i] + offset.2),
            None => None,
        };
        corners.push(ObjCorner { vertex: v[i] + offset.0, uv, normal });
        i = i + 1;
    }
    proof {
        assert forall|i: int| 0 <= i < v@.len() implies {
            &&& (#[trigger] corners@[i]).vertex == v@[i] + offset.0
            &&& match uv_triangles {
                Some(u) => corners@[i].uv == Some((u@[i] + offset.1) as IndexType) && u@[i] + offset.1
                    <= u32::MAX,
                None => corners@[i].uv is None,
            }
            &&& match normal_triangles {
                Some(n) => corners@[i].normal == Some((n@[i] + offset.2) as IndexType) && n@[i]
                    + offset.2 <= u32::MAX,
                None => corners@[i].normal is None,
            }
        } by {
            lemma_corner_offsets(v, uv_triangles, normal_triangles, offset, i);
        }
    }
    Ok(Some(corners))
}

} // verus!
