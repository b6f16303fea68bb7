//! A mesh: arrays of vertices, normals, texture coordinates and tangents, the triangle arrays
//! that index them, and named segments of custom data. The element types are parameters:
//! the library handles the arrays and indices, whatever the points are.
use crate::custom_data::{CustomDataSegment, DataSegmentError};
use crate::material::MaterialInfo;
use crate::tmf::{DecodedSegment, SegView, SharedSegmentKind};
use crate::IndexType;
use vstd::prelude::*;
use vstd::slice::slice_to_vec;
use vstd::string::StringSliceAdditionalSpecFns;

verus! {

/// A mesh. `V3` is the type of vertices and normals, `V2` of texture coordinates, `T` of
/// tangents and `D` of custom data.
#[derive(Clone)]
pub struct TMFMesh<V3, V2, T, D> {
    normals: Option<Vec<V3>>,
    normal_triangles: Option<Vec<IndexType>>,
    vertices: Option<Vec<V3>>,
    vertex_triangles: Option<Vec<IndexType>>,
    uvs: Option<Vec<V2>>,
    uv_triangles: Option<Vec<IndexType>>,
    tangents: Option<Vec<T>>,
    tangent_triangles: Option<Vec<IndexType>>,
    materials: Option<MaterialInfo>,
    custom_data: Vec<CustomDataSegment<D>>,
}

/// The contents of a mesh, as values.
pub struct MeshView<V3, V2, T, D> {
    pub vertices: Option<Seq<V3>>,
    pub normals: Option<Seq<V3>>,
    pub uvs: Option<Seq<V2>>,
    pub tangents: Option<Seq<T>>,
    pub vertex_triangles: Option<Seq<IndexType>>,
    pub normal_triangles: Option<Seq<IndexType>>,
    pub uv_triangles: Option<Seq<IndexType>>,
    pub tangent_triangles: Option<Seq<IndexType>>,
    pub custom: Seq<CustomDataSegment<D>>,
}

/// The elements of an optional array.
pub open spec fn opt_seq<X>(o: Option<Vec<X>>) -> Option<Seq<X>> {
    match o {
        Some(v) => Some(v@),
        None => None,
    }
}

/// An optional array with `items` added at its end; a missing array becomes `items`.
pub open spec fn appended<X>(o: Option<Seq<X>>, items: Seq<X>) -> Option<Seq<X>> {
    match o {
        Some(a) => Some(a + items),
        None => Some(items),
    }
}

impl<V3, V2, T, D> View for TMFMesh<V3, V2, T, D> {
    type V = MeshView<V3, V2, T, D>;

    closed spec fn view(&self) -> MeshView<V3, V2, T, D> {
        MeshView {
            vertices: opt_seq(self.vertices),
            normals: opt_seq(self.normals),
            uvs: opt_seq(self.uvs),
            tangents: opt_seq(self.tangents),
            vertex_triangles: opt_seq(self.vertex_triangles),
            normal_triangles: opt_seq(self.normal_triangles),
            uv_triangles: opt_seq(self.uv_triangles),
            tangent_triangles: opt_seq(self.tangent_triangles),
            custom: self.custom_data@,
        }
    }
}

/// Adds `items` at the end of an optional array, creating it where it is missing.
fn append_to<X: Copy>(target: &mut Option<Vec<X>>, items: &[X])
    ensures
        opt_seq(*final(target)) == appended(opt_seq(*old(target)), items@),
{
    match target.take() {
        Some(v) => {
            let mut v = v;
            let ghost start = v@;
            let mut i: usize = 0;
            while i < items.len()
                invariant
                    i <= items@.len(),
                    v@ == start + items@.take(i as int),
                decreases items@.len() - i,
            {
                v.push(items[i]);
                proof {
                    assert(items@.take(i + 1) =~= items@.take(i as int).push(items@[i as int]));
                }
                i = i + 1;
            }
            proof {
                assert(items@.take(i as int) =~= items@);
            }
            *target = Some(v);
        },
        None => {
            *target = Some(slice_to_vec(items));
        },
    }
}

/// The elements of an optional array, as a slice.
fn as_slice_opt<X>(o: &Option<Vec<X>>) -> (res: Option<&[X]>)
    ensures
        match *o {
            Some(v) => res matches Some(s) && s@ == v@,
            None => res is None,
        },
{
    match o {
        Some(v) => Some(v.as_slice()),
        None => None,
    }
}

/// The elements that the triangles `tris` pick out of `points`, in the order of `tris`.
pub open spec fn buffer_of<X>(points: Seq<X>, tris: Seq<IndexType>) -> Seq<X> {
    tris.map_values(|i: IndexType| points[i as int])
}

/// Every triangle index picks an element of `points`.
pub open spec fn indices_within<X>(points: Option<Seq<X>>, tris: Option<Seq<IndexType>>) -> bool {
    match (points, tris) {
        (Some(p), Some(t)) => forall|i: int| 0 <= i < t.len() ==> #[trigger] t[i] < p.len(),
        _ => true,
    }
}

/// The elements picked out by a triangle array: `None` where either array is missing.
fn buffer<X: Copy>(points: Option<&[X]>, tris: Option<&[IndexType]>) -> (res: Option<Vec<X>>)
    requires
        match (points, tris) {
            (Some(p), Some(t)) => forall|i: int| 0 <= i < t@.len() ==> #[trigger] t@[i] < p@.len(),
            _ => true,
        },
    ensures
        match (points, tris) {
            (Some(p), Some(t)) => res matches Some(b) && b@ == buffer_of(p@, t@),
            _ => res is None,
        },
{
    let points = match points {
        Some(p) => p,
        None => {
            return None;
        },
    };
    let tris = match tris {
        Some(t) => t,
        None => {
            return None;
        },
    };
    let mut out: Vec<X> = Vec::new();
    let mut i: usize = 0;
    while i < tris.len()
        invariant
            i <= tris@.len(),
            forall|k: int| 0 <= k < tris@.len() ==> #[trigger] tris@[k] < points@.len(),
            out@ == buffer_of(points@, tris@.take(i as int)),
        decreases tris@.len() - i,
    {
        let index = tris[i] as usize;
        out.push(points[index]);
        proof {
            assert(tris@.take(i + 1) =~= tris@.take(i as int).push(tris@[i as int]));
            assert(buffer_of(points@, tris@.take(i + 1)) =~= buffer_of(points@, tris@.take(i as int)).push(
                points@[tris@[i as int] as int],
            ));
        }
        i = i + 1;
    }
    proof {
        assert(tris@.take(i as int) =~= tris@);
    }
    Some(out)
}

/// The segment of an optional array, or none.
pub open spec fn opt_segment<V3, V2, T, C, X>(o: Option<X>, f: spec_fn(X) -> SegView<V3, V2, T, C>) -> Seq<
    SegView<V3, V2, T, C>,
> {
    match o {
        Some(x) => seq![f(x)],
        None => Seq::empty(),
    }
}

/// The segments of a mesh, in the order they are written: vertices, normals, uvs, vertex,
/// normal and uv triangles, tangents, tangent triangles (each where present), then the
/// custom data segments.
pub open spec fn mesh_segment_views<V3, V2, T, D>(m: MeshView<V3, V2, T, D>) -> Seq<
    SegView<V3, V2, T, CustomDataSegment<D>>,
> {
    opt_segment(m.vertices, |s: Seq<V3>| SegView::<V3, V2, T, CustomDataSegment<D>>::Vertex(s))
        + opt_segment(m.normals, |s: Seq<V3>| SegView::<V3, V2, T, CustomDataSegment<D>>::Normal(s))
        + opt_segment(m.uvs, |s: Seq<V2>| SegView::<V3, V2, T, CustomDataSegment<D>>::Uv(s))
        + opt_segment(m.vertex_triangles, |s: Seq<IndexType>| SegView::<V3, V2, T, CustomDataSegment<D>>::TriVertex(s))
        + opt_segment(m.normal_triangles, |s: Seq<IndexType>| SegView::<V3, V2, T, CustomDataSegment<D>>::TriNormal(s))
        + opt_segment(m.uv_triangles, |s: Seq<IndexType>| SegView::<V3, V2, T, CustomDataSegment<D>>::TriUv(s))
        + opt_segment(m.tangents, |s: Seq<T>| SegView::<V3, V2, T, CustomDataSegment<D>>::Tangent(s))
        + opt_segment(m.tangent_triangles, |s: Seq<IndexType>| SegView::<V3, V2, T, CustomDataSegment<D>>::TriTangent(s))
        + m.custom.map_values(|c: CustomDataSegment<D>| SegView::<V3, V2, T, CustomDataSegment<D>>::Custom(c))
}

/// The first custom data segment named `name` is at `j`.
pub open spec fn first_named<D>(custom: Seq<CustomDataSegment<D>>, name: Seq<u8>, j: int) -> bool {
    &&& 0 <= j < custom.len()
    &&& custom[j].name() == name
    &&& forall|i: int| 0 <= i < j ==> #[trigger] custom[i].name() != name
}

impl<V3: Copy, V2: Copy, T: Copy, D> TMFMesh<V3, V2, T, D> {
    /// A mesh with no data.
    pub fn empty() -> (res: Self)
        ensures
            res@.vertices is None,
            res@.normals is None,
            res@.uvs is None,
            res@.tangents is None,
            res@.vertex_triangles is None,
            res@.normal_triangles is None,
            res@.uv_triangles is None,
            res@.tangent_triangles is None,
            res@.custom.len() == 0,
    {
        Self {
            normal_triangles: None,
            normals: None,
            uv_triangles: None,
            uvs: None,
            vertex_triangles: None,
            vertices: None,
            tangents: None,
            tangent_triangles: None,
            materials: None,
            custom_data: Vec::new(),
        }
    }

    /// Sets the vertex array and gives back the one it replaces. The data is not checked:
    /// call [`crate::verify`] checks before saving.
    pub fn set_vertices(&mut self, vertices: Vec<V3>) -> (res: Option<Vec<V3>>)
        ensures
            final(self)@ == (MeshView { vertices: Some(vertices@), ..old(self)@ }),
            opt_seq(res) == old(self)@.vertices,
    {
        let mut vertices = Some(vertices);
        std::mem::swap(&mut vertices, &mut self.vertices);
        vertices
    }

    /// Sets the normal array and gives back the one it replaces.
    pub fn set_normals(&mut self, normals: Vec<V3>) -> (res: Option<Vec<V3>>)
        ensures
            final(self)@ == (MeshView { normals: Some(normals@), ..old(self)@ }),
            opt_seq(res) == old(self)@.normals,
    {
        let mut normals = Some(normals);
        std::mem::swap(&mut normals, &mut self.normals);
        normals
    }

    /// Sets the texture coordinate array and gives back the one it replaces.
    pub fn set_uvs(&mut self, uvs: Vec<V2>) -> (res: Option<Vec<V2>>)
        ensures
            final(self)@ == (MeshView { uvs: Some(uvs@), ..old(self)@ }),
            opt_seq(res) == old(self)@.uvs,
    {
        let mut uvs = Some(uvs);
        std::mem::swap(&mut uvs, &mut self.uvs);
        uvs
    }

    /// Sets the vertex triangle array and gives back the one it replaces.
    pub fn set_vertex_triangles(&mut self, triangles: Vec<IndexType>) -> (res: Option<Vec<IndexType>>)
        ensures
            final(self)@ == (MeshView { vertex_triangles: Some(triangles@), ..old(self)@ }),
            opt_seq(res) == old(self)@.vertex_triangles,
    {
        let mut triangles = Some(triangles);
        std::mem::swap(&mut triangles, &mut self.vertex_triangles);
        triangles
    }

    /// Sets the normal triangle array and gives back the one it replaces.
    pub fn set_normal_triangles(&mut self, triangles: Vec<IndexType>) -> (res: Option<Vec<IndexType>>)
        ensures
            final(self)@ == (MeshView { normal_triangles: Some(triangles@), ..old(self)@ }),
            opt_seq(res) == old(self)@.normal_triangles,
    {
        let mut triangles = Some(triangles);
        std::mem::swap(&mut triangles, &mut self.normal_triangles);
        triangles
    }

    /// Sets the texture coordinate triangle array and gives back the one it replaces.
    pub fn set_uv_triangles(&mut self, triangles: Vec<IndexType>) -> (res: Option<Vec<IndexType>>)
        ensures
            final(self)@ == (MeshView { uv_triangles: Some(triangles@), ..old(self)@ }),
            opt_seq(res) == old(self)@.uv_triangles,
    {
        let mut triangles = Some(triangles);
        std::mem::swap(&mut triangles, &mut self.uv_triangles);
        triangles
    }

    /// Sets the tangent array and gives back the one it replaces.
    pub fn set_tangents(&mut self, tangents: Vec<T>) -> (res: Option<Vec<T>>)
        ensures
            final(self)@ == (MeshView { tangents: Some(tangents@), ..old(self)@ }),
            opt_seq(res) == old(self)@.tangents,
    {
        let mut tangents = Some(tangents);
        std::mem::swap(&mut tangents, &mut self.tangents);
        tangents
    }

    /// Sets the tangent triangle array and gives back the one it replaces.
    pub fn set_tangent_triangles(&mut self, triangles: Vec<IndexType>) -> (res: Option<Vec<IndexType>>)
        ensures
            final(self)@ == (MeshView { tangent_triangles: Some(triangles@), ..old(self)@ }),
            opt_seq(res) == old(self)@.tangent_triangles,
    {
        let mut triangles = Some(triangles);
        std::mem::swap(&mut triangles, &mut self.tangent_triangles);
        triangles
    }

    /// The vertex array, if present.
    pub fn get_vertices(&self) -> (res: Option<&[V3]>)
        ensures
            match self@.vertices {
                Some(v) => res matches Some(s) && s@ == v,
                None => res is None,
            },
    {
        as_slice_opt(&self.vertices)
    }

    /// The normal array, if present.
    pub fn get_normals(&self) -> (res: Option<&[V3]>)
        ensures
            match self@.normals {
                Some(v) => res matches Some(s) && s@ == v,
                None => res is None,
            },
    {
        as_slice_opt(&self.normals)
    }

    /// The texture coordinate array, if present.
    pub fn get_uvs(&self) -> (res: Option<&[V2]>)
        ensures
            match self@.uvs {
                Some(v) => res matches Some(s) && s@ == v,
                None => res is None,
            },
    {
        as_slice_opt(&self.uvs)
    }

    /// The tangent array, if present.
    pub fn get_tangents(&self) -> (res: Option<&[T]>)
        ensures
            match self@.tangents {
                Some(v) => res matches Some(s) && s@ == v,
                None => res is None,
            },
    {
        as_slice_opt(&self.tangents)
    }

    /// The vertex triangle array, if present.
    pub fn get_vertex_triangles(&self) -> (res: Option<&[IndexType]>)
        ensures
            match self@.vertex_triangles {
                Some(v) => res matches Some(s) && s@ == v,
                None => res is None,
            },
    {
        as_slice_opt(&self.vertex_triangles)
    }

    /// The normal triangle array, if present.
    pub fn get_normal_triangles(&self) -> (res: Option<&[IndexType]>)
        ensures
            match self@.normal_triangles {
                Some(v) => res matches Some(s) && s@ == v,
                None => res is None,
            },
    {
        as_slice_opt(&self.normal_triangles)
    }

    /// The texture coordinate triangle array, if present.
    pub fn get_uv_triangles(&self) -> (res: Option<&[IndexType]>)
        ensures
            match self@.uv_triangles {
                Some(v) => res matches Some(s) && s@ == v,
                None => res is None,
            },
    {
        as_slice_opt(&self.uv_triangles)
    }

    /// The tangent triangle array, if present.
    pub fn get_tangent_triangles(&self) -> (res: Option<&[IndexType]>)
        ensures
            match self@.tangent_triangles {
                Some(v) => res matches Some(s) && s@ == v,
                None => res is None,
            },
    {
        as_slice_opt(&self.tangent_triangles)
    }

    /// The vertex of each vertex triangle index, in order: the data a renderer draws from.
    /// `None` where either array is missing.
    pub fn get_vertex_buffer(&self) -> (res: Option<Vec<V3>>)
        requires
            indices_within(self@.vertices, self@.vertex_triangles),
        ensures
            match (self@.vertices, self@.vertex_triangles) {
                (Some(p), Some(t)) => res matches Some(b) && b@ == buffer_of(p, t),
                _ => res is None,
            },
    {
        buffer(self.get_vertices(), self.get_vertex_triangles())
    }

    /// The normal of each normal triangle index, in order. `None` where either array is
    /// missing.
    pub fn get_normal_buffer(&self) -> (res: Option<Vec<V3>>)
        requires
            indices_within(self@.normals, self@.normal_triangles),
        ensures
            match (self@.normals, self@.normal_triangles) {
                (Some(p), Some(t)) => res matches Some(b) && b@ == buffer_of(p, t),
                _ => res is None,
            },
    {
        buffer(self.get_normals(), self.get_normal_triangles())
    }

    /// The texture coordinates of each uv triangle index, in order. `None` where either
    /// array is missing.
    pub fn get_uv_buffer(&self) -> (res: Option<Vec<V2>>)
        requires
            indices_within(self@.uvs, self@.uv_triangles),
        ensures
            match (self@.uvs, self@.uv_triangles) {
                (Some(p), Some(t)) => res matches Some(b) && b@ == buffer_of(p, t),
                _ => res is None,
            },
    {
        buffer(self.get_uvs(), self.get_uv_triangles())
    }

    /// Adds vertices at the end of the vertex array.
    pub fn append_vertices(&mut self, vertices: &[V3])
        ensures
            final(self)@ == (MeshView { vertices: appended(old(self)@.vertices, vertices@), ..old(self)@ }),
    {
        append_to(&mut self.vertices, vertices);
    }

    /// Adds normals at the end of the normal array.
    pub fn append_normals(&mut self, normals: &[V3])
        ensures
            final(self)@ == (MeshView { normals: appended(old(self)@.normals, normals@), ..old(self)@ }),
    {
        append_to(&mut self.normals, normals);
    }

    /// Adds texture coordinates at the end of their array.
    pub fn append_uvs(&mut self, uvs: &[V2])
        ensures
            final(self)@ == (MeshView { uvs: appended(old(self)@.uvs, uvs@), ..old(self)@ }),
    {
        append_to(&mut self.uvs, uvs);
    }

    /// Adds tangents at the end of the tangent array.
    pub fn append_tangents(&mut self, tangents: &[T])
        ensures
            final(self)@ == (MeshView { tangents: appended(old(self)@.tangents, tangents@), ..old(self)@ }),
    {
        append_to(&mut self.tangents, tangents);
    }

    /// Adds indices at the end of the vertex triangle array.
    pub fn append_vertex_triangles(&mut self, triangles: &[IndexType])
        ensures
            final(self)@ == (MeshView {
                vertex_triangles: appended(old(self)@.vertex_triangles, triangles@),
                ..old(self)@
            }),
    {
        append_to(&mut self.vertex_triangles, triangles);
    }

    /// Adds indices at the end of the normal triangle array.
    pub fn append_normal_triangles(&mut self, triangles: &[IndexType])
        ensures
            final(self)@ == (MeshView {
                normal_triangles: appended(old(self)@.normal_triangles, triangles@),
                ..old(self)@
            }),
    {
        append_to(&mut self.normal_triangles, triangles);
    }

    /// Adds indices at the end of the texture coordinate triangle array.
    pub fn append_uv_triangles(&mut self, triangles: &[IndexType])
        ensures
            final(self)@ == (MeshView {
                uv_triangles: appended(old(self)@.uv_triangles, triangles@),
                ..old(self)@
            }),
    {
        append_to(&mut self.uv_triangles, triangles);
    }

    /// Adds indices at the end of the tangent triangle array.
    pub fn append_tangent_triangles(&mut self, triangles: &[IndexType])
        ensures
            final(self)@ == (MeshView {
                tangent_triangles: appended(old(self)@.tangent_triangles, triangles@),
                ..old(self)@
            }),
    {
        append_to(&mut self.tangent_triangles, triangles);
    }

    /// Adds a named custom data segment.
    pub fn add_custom_data_seg(&mut self, custom_data: CustomDataSegment<D>)
        ensures
            final(self)@ == (MeshView { custom: old(self)@.custom.push(custom_data), ..old(self)@ }),
    {
        self.custom_data.push(custom_data);
    }

    /// Adds custom data under the name `name`, which must be 1 to 255 bytes long.
    pub fn add_custom_data(&mut self, custom_data: D, name: &str) -> (res: Result<(), DataSegmentError>)
        ensures
            name.spec_bytes().len() > 255 ==> res == Err::<(), DataSegmentError>(DataSegmentError::NameTooLong)
                && final(self)@ == old(self)@,
            name.spec_bytes().len() == 0 ==> res == Err::<(), DataSegmentError>(DataSegmentError::NoName)
                && final(self)@ == old(self)@,
            1 <= name.spec_bytes().len() <= 255 ==> res is Ok && final(self)@.custom.len() == old(self)@.custom.len() + 1
                && final(self)@.custom.last().name() == name.spec_bytes()
                && final(self)@.custom.last().data() == custom_data
                && final(self)@ == (MeshView { custom: final(self)@.custom, ..old(self)@ })
                && final(self)@.custom.drop_last() == old(self)@.custom,
    {
        match CustomDataSegment::new(custom_data, name) {
            Ok(seg) => {
                self.add_custom_data_seg(seg);
                Ok(())
            },
            Err(e) => Err(e),
        }
    }

    /// The data of the first custom data segment named `name`; `None` where there is none
    /// (always for names over 255 bytes).
    pub fn lookup_custom_data(&self, name: &str) -> (res: Option<&D>)
        ensures
            name.spec_bytes().len() > 255 ==> res is None,
            name.spec_bytes().len() <= 255 ==> match res {
                Some(d) => exists|j: int| first_named(self@.custom, name.spec_bytes(), j)
                    && *d == #[trigger] self@.custom[j].data(),
                None => forall|i: int| 0 <= i < self@.custom.len() ==> #[trigger] self@.custom[i].name()
                    != name.spec_bytes(),
            },
    {
        let bytes = name.as_bytes();
        if bytes.len() > 255 {
            return None;
        }
        let bytes_len = bytes.len() as u8;
        let mut i: usize = 0;
        while i < self.custom_data.len()
            invariant
                i <= self.custom_data@.len(),
                bytes@ == name.spec_bytes(),
                bytes_len == bytes@.len(),
                forall|k: int| 0 <= k < i ==> #[trigger] self.custom_data@[k].name() != bytes@,
            decreases self.custom_data@.len() - i,
        {
            let data = &self.custom_data[i];
            if data.name_len() == bytes_len && bytes_equal(bytes, data.name_bytes()) {
                proof {
                    assert(data.name() =~= bytes@);
                    assert(first_named(self@.custom, name.spec_bytes(), i as int));
                }
                return Some(data.custom_data());
            }
            i = i + 1;
        }
        None
    }

    /// The segments the mesh is written as: its vertices, normals, uvs, vertex, normal and
    /// uv triangles, tangents and tangent triangles (each where present), then its custom
    /// data segments, in that order.
    #[verifier::spinoff_prover]
    #[verifier::rlimit(60)]
    pub fn into_segments(self) -> (res: Vec<DecodedSegment<V3, V2, T, CustomDataSegment<D>>>)
        ensures
            crate::tmf::seg_views(res@) == mesh_segment_views(self@),
    {
        let ghost m = self@;
        let TMFMesh {
            normals,
            normal_triangles,
            vertices,
            vertex_triangles,
            uvs,
            uv_triangles,
            tangents,
            tangent_triangles,
            materials: _,
            custom_data,
        } = self;
        let mut res: Vec<DecodedSegment<V3, V2, T, CustomDataSegment<D>>> = Vec::new();
        let ghost f1 = |s: Seq<V3>| SegView::<V3, V2, T, CustomDataSegment<D>>::Vertex(s);
        let ghost f2 = |s: Seq<V3>| SegView::<V3, V2, T, CustomDataSegment<D>>::Normal(s);
        let ghost f3 = |s: Seq<V2>| SegView::<V3, V2, T, CustomDataSegment<D>>::Uv(s);
        let ghost f4 = |s: Seq<IndexType>| SegView::<V3, V2, T, CustomDataSegment<D>>::TriVertex(s);
        let ghost f5 = |s: Seq<IndexType>| SegView::<V3, V2, T, CustomDataSegment<D>>::TriNormal(s);
        let ghost f6 = |s: Seq<IndexType>| SegView::<V3, V2, T, CustomDataSegment<D>>::TriUv(s);
        let ghost f7 = |s: Seq<T>| SegView::<V3, V2, T, CustomDataSegment<D>>::Tangent(s);
        let ghost f8 = |s: Seq<IndexType>| SegView::<V3, V2, T, CustomDataSegment<D>>::TriTangent(s);
        push_some(&mut res, match vertices { Some(v) => Some(DecodedSegment::AppendVertex(v)), None => None });
        let ghost a1 = opt_segment(m.vertices, f1);
        assert(crate::tmf::seg_views(res@) =~= a1);
        push_some(&mut res, match normals { Some(v) => Some(DecodedSegment::AppendNormal(v)), None => None });
        let ghost a2 = a1 + opt_segment(m.normals, f2);
        assert(crate::tmf::seg_views(res@) =~= a2);
        push_some(&mut res, match uvs { Some(v) => Some(DecodedSegment::AppendUV(v)), None => None });
        let ghost a3 = a2 + opt_segment(m.uvs, f3);
        assert(crate::tmf::seg_views(res@) =~= a3);
        push_some(&mut res, match vertex_triangles { Some(v) => Some(DecodedSegment::AppendTriangleVertex(v)), None => None });
        let ghost a4 = a3 + opt_segment(m.vertex_triangles, f4);
        assert(crate::tmf::seg_views(res@) =~= a4);
        push_some(&mut res, match normal_triangles { Some(v) => Some(DecodedSegment::AppendTriangleNormal(v)), None => None });
        let ghost a5 = a4 + opt_segment(m.normal_triangles, f5);
        assert(crate::tmf::seg_views(res@) =~= a5);
        push_some(&mut res, match uv_triangles { Some(v) => Some(DecodedSegment::AppendTriangleUV(v)), None => None });
        let ghost a6 = a5 + opt_segment(m.uv_triangles, f6);
        assert(crate::tmf::seg_views(res@) =~= a6);
        push_some(&mut res, match tangents { Some(v) => Some(DecodedSegment::AppendTangent(v)), None => None });
        let ghost a7 = a6 + opt_segment(m.tangents, f7);
        assert(crate::tmf::seg_views(res@) =~= a7);
        push_some(&mut res, match tangent_triangles { Some(v) => Some(DecodedSegment::AppendTriangleTangent(v)), None => None });
        let ghost a8 = a7 + opt_segment(m.tangent_triangles, f8);
        assert(crate::tmf::seg_views(res@) =~= a8);
        let ghost head = crate::tmf::seg_views(res@);
        let mut custom_data = custom_data;
        let ghost all_custom = custom_data@;
        let mut k: usize = 0;
        let n = custom_data.len();
        while custom_data.len() > 0
            invariant
                all_custom == m.custom,
                k + custom_data@.len() == all_custom.len() == n,
                custom_data@ == all_custom.skip(k as int),
                crate::tmf::seg_views(res@) == head + all_custom.take(k as int).map_values(
                    |c: CustomDataSegment<D>| SegView::<V3, V2, T, CustomDataSegment<D>>::Custom(c),
                ),
            decreases custom_data@.len(),
        {
            let ghost before = custom_data@;
            let c = custom_data.remove(0);
            let ghost done = crate::tmf::seg_views(res@);
            res.push(DecodedSegment::AppendCustom(c));
            proof {
                assert(c == all_custom[k as int]);
                assert(custom_data@ =~= all_custom.skip(k + 1));
                assert(all_custom.take(k + 1) =~= all_custom.take(k as int).push(all_custom[k as int]));
                assert(crate::tmf::seg_views(res@) =~= done.push(SegView::Custom(c)));
                assert(crate::tmf::seg_views(res@) =~= head + all_custom.take(k + 1).map_values(
                    |c: CustomDataSegment<D>| SegView::<V3, V2, T, CustomDataSegment<D>>::Custom(c),
                ));
            }
            k = k + 1;
        }
        proof {
            assert(all_custom.take(k as int) =~= all_custom);
            assert(mesh_segment_views(m) == a8 + m.custom.map_values(
                |c: CustomDataSegment<D>| SegView::<V3, V2, T, CustomDataSegment<D>>::Custom(c),
            ));
            assert(crate::tmf::seg_views(res@) =~= mesh_segment_views(m));
        }
        res
    }
}

/// Adds the segment, if there is one.
fn push_some<S: View>(res: &mut Vec<S>, s: Option<S>)
    ensures
        final(res)@.map_values(|x: S| x@) == old(res)@.map_values(|x: S| x@) + match s {
            Some(x) => seq![x@],
            None => Seq::<S::V>::empty(),
        },
{
    let ghost before = res@;
    if let Some(x) = s {
        res.push(x);
        proof {
            assert(res@.map_values(|x: S| x@) =~= before.map_values(|x: S| x@) + seq![x@]);
        }
    } else {
        proof {
            assert(res@.map_values(|x: S| x@) =~= before.map_values(|x: S| x@) + Seq::<S::V>::empty());
        }
    }
}

/// Whether two byte strings are equal.
fn bytes_equal(a: &[u8], b: &[u8]) -> (res: bool)
    ensures
        res == (a@ == b@),
{
    if a.len() != b.len() {
        return false;
    }
    let mut i: usize = 0;
    while i < a.len()
        invariant
            i <= a@.len() == b@.len(),
            forall|k: int| 0 <= k < i ==> a@[k] == b@[k],
        decreases a@.len() - i,
    {
        if a[i] != b[i] {
            return false;
        }
        i = i + 1;
    }
    proof {
        assert(a@ =~= b@);
    }
    true
}

/// What adding a segment to a mesh gives: arrays are added at the end of the arrays of
/// their kind, a shared triangle segment at the end of each triangle array it stands for,
/// custom data as one more custom segment; nothing leaves the mesh as it is.
pub open spec fn applied<V3, V2, T, D>(m: MeshView<V3, V2, T, D>, s: SegView<V3, V2, T, CustomDataSegment<D>>) -> MeshView<
    V3,
    V2,
    T,
    D,
> {
    match s {
        SegView::Nothing => m,
        SegView::Vertex(v) => MeshView { vertices: appended(m.vertices, v), ..m },
        SegView::Normal(v) => MeshView { normals: appended(m.normals, v), ..m },
        SegView::Uv(v) => MeshView { uvs: appended(m.uvs, v), ..m },
        SegView::Tangent(v) => MeshView { tangents: appended(m.tangents, v), ..m },
        SegView::TriVertex(t) => MeshView { vertex_triangles: appended(m.vertex_triangles, t), ..m },
        SegView::TriNormal(t) => MeshView { normal_triangles: appended(m.normal_triangles, t), ..m },
        SegView::TriUv(t) => MeshView { uv_triangles: appended(m.uv_triangles, t), ..m },
        SegView::TriTangent(t) => MeshView { tangent_triangles: appended(m.tangent_triangles, t), ..m },
        SegView::Shared(mask, t) => MeshView {
            vertex_triangles: if mask & 0x1 != 0 {
                appended(m.vertex_triangles, t)
            } else {
                m.vertex_triangles
            },
            normal_triangles: if mask & 0x2 != 0 {
                appended(m.normal_triangles, t)
            } else {
                m.normal_triangles
            },
            uv_triangles: if mask & 0x4 != 0 {
                appended(m.uv_triangles, t)
            } else {
                m.uv_triangles
            },
            ..m
        },
        SegView::Custom(c) => MeshView { custom: m.custom.push(c), ..m },
    }
}

/// What adding the segments one after the other to a mesh gives.
pub open spec fn apply_all<V3, V2, T, D>(m: MeshView<V3, V2, T, D>, segs: Seq<SegView<V3, V2, T, CustomDataSegment<D>>>) -> MeshView<
    V3,
    V2,
    T,
    D,
>
    decreases segs.len(),
{
    if segs.len() == 0 {
        m
    } else {
        apply_all(applied(m, segs[0]), segs.skip(1))
    }
}

/// A mesh with no data.
pub open spec fn empty_mesh_view<V3, V2, T, D>() -> MeshView<V3, V2, T, D> {
    MeshView {
        vertices: None,
        normals: None,
        uvs: None,
        tangents: None,
        vertex_triangles: None,
        normal_triangles: None,
        uv_triangles: None,
        tangent_triangles: None,
        custom: Seq::empty(),
    }
}

/// Adding two runs of segments is adding the first, then the second.
pub proof fn lemma_apply_all_concat<V3, V2, T, D>(
    m: MeshView<V3, V2, T, D>,
    a: Seq<SegView<V3, V2, T, CustomDataSegment<D>>>,
    b: Seq<SegView<V3, V2, T, CustomDataSegment<D>>>,
)
    ensures
        apply_all(m, a + b) == apply_all(apply_all(m, a), b),
    decreases a.len(),
{
    if a.len() == 0 {
        assert(a + b =~= b);
    } else {
        assert((a + b)[0] == a[0]);
        assert((a + b).skip(1) =~= a.skip(1) + b);
        lemma_apply_all_concat(applied(m, a[0]), a.skip(1), b);
    }
}

/// Adding custom segments adds their data at the end of the custom data, in order.
pub proof fn lemma_apply_customs<V3, V2, T, D>(m: MeshView<V3, V2, T, D>, c: Seq<CustomDataSegment<D>>)
    ensures
        apply_all(m, c.map_values(|x: CustomDataSegment<D>| SegView::<V3, V2, T, CustomDataSegment<D>>::Custom(x)))
            == (MeshView { custom: m.custom + c, ..m }),
    decreases c.len(),
{
    let segs = c.map_values(|x: CustomDataSegment<D>| SegView::<V3, V2, T, CustomDataSegment<D>>::Custom(x));
    if c.len() == 0 {
        assert(m.custom + c =~= m.custom);
    } else {
        let m1 = MeshView { custom: m.custom.push(c[0]), ..m };
        assert(segs[0] == SegView::<V3, V2, T, CustomDataSegment<D>>::Custom(c[0]));
        assert(applied(m, segs[0]) == m1);
        assert(segs.skip(1) =~= c.skip(1).map_values(
            |x: CustomDataSegment<D>| SegView::<V3, V2, T, CustomDataSegment<D>>::Custom(x),
        ));
        lemma_apply_customs(m1, c.skip(1));
        assert(m1.custom + c.skip(1) =~= m.custom + c);
    }
}

/// Adding at most one segment: nothing changes where there is none.
pub proof fn lemma_apply_opt<V3, V2, T, D, X>(
    m: MeshView<V3, V2, T, D>,
    o: Option<X>,
    f: spec_fn(X) -> SegView<V3, V2, T, CustomDataSegment<D>>,
)
    ensures
        apply_all(m, opt_segment(o, f)) == match o {
            Some(x) => applied(m, f(x)),
            None => m,
        },
{
    match o {
        Some(x) => {
            let segs = opt_segment(o, f);
            assert(segs.len() == 1);
            assert(segs[0] == f(x));
            assert(segs.skip(1) =~= Seq::<SegView<V3, V2, T, CustomDataSegment<D>>>::empty());
            assert(apply_all(applied(m, f(x)), segs.skip(1)) == applied(m, f(x)));
        },
        None => {},
    }
}

/// The segments a mesh is written as (see [`TMFMesh::into_segments`]), added in order to a
/// mesh with no data (see [`DecodedSegment::apply`]), give back the mesh.
pub proof fn lemma_segments_rebuild_mesh<V3, V2, T, D>(m: MeshView<V3, V2, T, D>)
    ensures
        apply_all(empty_mesh_view(), mesh_segment_views(m)) == m,
{
    let f1 = |s: Seq<V3>| SegView::<V3, V2, T, CustomDataSegment<D>>::Vertex(s);
    let f2 = |s: Seq<V3>| SegView::<V3, V2, T, CustomDataSegment<D>>::Normal(s);
    let f3 = |s: Seq<V2>| SegView::<V3, V2, T, CustomDataSegment<D>>::Uv(s);
    let f4 = |s: Seq<IndexType>| SegView::<V3, V2, T, CustomDataSegment<D>>::TriVertex(s);
    let f5 = |s: Seq<IndexType>| SegView::<V3, V2, T, CustomDataSegment<D>>::TriNormal(s);
    let f6 = |s: Seq<IndexType>| SegView::<V3, V2, T, CustomDataSegment<D>>::TriUv(s);
    let f7 = |s: Seq<T>| SegView::<V3, V2, T, CustomDataSegment<D>>::Tangent(s);
    let f8 = |s: Seq<IndexType>| SegView::<V3, V2, T, CustomDataSegment<D>>::TriTangent(s);
    let s1 = opt_segment(m.vertices, f1);
    let s2 = opt_segment(m.normals, f2);
    let s3 = opt_segment(m.uvs, f3);
    let s4 = opt_segment(m.vertex_triangles, f4);
    let s5 = opt_segment(m.normal_triangles, f5);
    let s6 = opt_segment(m.uv_triangles, f6);
    let s7 = opt_segment(m.tangents, f7);
    let s8 = opt_segment(m.tangent_triangles, f8);
    let cs = m.custom.map_values(|c: CustomDataSegment<D>| SegView::<V3, V2, T, CustomDataSegment<D>>::Custom(c));
    let e = empty_mesh_view::<V3, V2, T, D>();
    assert(mesh_segment_views(m) == s1 + s2 + s3 + s4 + s5 + s6 + s7 + s8 + cs);
    lemma_apply_all_concat(e, s1 + s2 + s3 + s4 + s5 + s6 + s7 + s8, cs);
    lemma_apply_all_concat(e, s1 + s2 + s3 + s4 + s5 + s6 + s7, s8);
    lemma_apply_all_concat(e, s1 + s2 + s3 + s4 + s5 + s6, s7);
    lemma_apply_all_concat(e, s1 + s2 + s3 + s4 + s5, s6);
    lemma_apply_all_concat(e, s1 + s2 + s3 + s4, s5);
    lemma_apply_all_concat(e, s1 + s2 + s3, s4);
    lemma_apply_all_concat(e, s1 + s2, s3);
    lemma_apply_all_concat(e, s1, s2);
    let m1 = apply_all(e, s1);
    lemma_apply_opt(e, m.vertices, f1);
    let m2 = apply_all(m1, s2);
    lemma_apply_opt(m1, m.normals, f2);
    let m3 = apply_all(m2, s3);
    lemma_apply_opt(m2, m.uvs, f3);
    let m4 = apply_all(m3, s4);
    lemma_apply_opt(m3, m.vertex_triangles, f4);
    let m5 = apply_all(m4, s5);
    lemma_apply_opt(m4, m.normal_triangles, f5);
    let m6 = apply_all(m5, s6);
    lemma_apply_opt(m5, m.uv_triangles, f6);
    let m7 = apply_all(m6, s7);
    lemma_apply_opt(m6, m.tangents, f7);
    let m8 = apply_all(m7, s8);
    lemma_apply_opt(m7, m.tangent_triangles, f8);
    lemma_apply_customs(m8, m.custom);
    assert(m8.custom + m.custom =~= m.custom);
}

impl<V3: Copy, V2: Copy, T: Copy, D> DecodedSegment<V3, V2, T, CustomDataSegment<D>> {
    /// Adds what the segment holds to `mesh` (see [`applied`]).
    pub fn apply(self, mesh: &mut TMFMesh<V3, V2, T, D>)
        ensures
            final(mesh)@ == applied(old(mesh)@, self@),
    {
        match self {
            DecodedSegment::AppendVertex(v) => mesh.append_vertices(v.as_slice()),
            DecodedSegment::AppendNormal(v) => mesh.append_normals(v.as_slice()),
            DecodedSegment::AppendUV(v) => mesh.append_uvs(v.as_slice()),
            DecodedSegment::AppendTriangleVertex(t) => mesh.append_vertex_triangles(t.as_slice()),
            DecodedSegment::AppendTriangleNormal(t) => mesh.append_normal_triangles(t.as_slice()),
            DecodedSegment::AppendTriangleUV(t) => mesh.append_uv_triangles(t.as_slice()),
            DecodedSegment::AppendCustom(c) => mesh.add_custom_data_seg(c),
            DecodedSegment::AppendTangent(v) => mesh.append_tangents(v.as_slice()),
            DecodedSegment::AppendTriangleTangent(t) => mesh.append_tangent_triangles(t.as_slice()),
            DecodedSegment::Nothing => {},
            DecodedSegment::SharedTriangleSegment(kind, indices) => {
                proof {
                    crate::tmf::lemma_shared_kind_flags(kind.spec_mask());
                }
                if kind.get_vertex() {
                    mesh.append_vertex_triangles(indices.as_slice());
                }
                if kind.get_normal() {
                    mesh.append_normal_triangles(indices.as_slice());
                }
                if kind.get_uv() {
                    mesh.append_uv_triangles(indices.as_slice());
                }
            },
        }
    }
}

} // verus!
