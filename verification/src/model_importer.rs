//! Gathering of a model read item by item (as from an .obj file) into meshes.
use crate::utilis::{fast_prune, pruned};
use crate::mesh::TMFMesh;
use crate::IndexType;
use vstd::prelude::*;

verus! {

/// Why a face could not be added.
#[derive(Clone, Copy, Debug, PartialEq, Eq, Structural)]
pub enum FaceError {
    /// The face has different numbers of vertex, texture and normal indices (in this order).
    CountMismatch(usize, usize, usize),
    /// The face has fewer than 3 points (this many).
    TooFewPoints(usize),
    /// The face has more than 3 points and would need triangulation.
    NeedsTriangulation,
}

/// The arrays of a mesh, with unused leading elements pruned.
pub struct MeshParts<V3, V2> {
    pub vertices: Vec<V3>,
    pub normals: Vec<V3>,
    pub uvs: Vec<V2>,
    pub vertex_triangles: Vec<IndexType>,
    pub normal_triangles: Vec<IndexType>,
    pub uv_triangles: Vec<IndexType>,
}

impl<V3: Copy, V2: Copy> MeshParts<V3, V2> {
    /// The mesh holding these arrays (with no tangents and no custom data).
    pub fn into_mesh<T: Copy, D>(self) -> (mesh: TMFMesh<V3, V2, T, D>)
        ensures
            mesh@.vertices == Some(self.vertices@),
            mesh@.normals == Some(self.normals@),
            mesh@.uvs == Some(self.uvs@),
            mesh@.vertex_triangles == Some(self.vertex_triangles@),
            mesh@.normal_triangles == Some(self.normal_triangles@),
            mesh@.uv_triangles == Some(self.uv_triangles@),
            mesh@.tangents is None,
            mesh@.tangent_triangles is None,
            mesh@.custom.len() == 0,
    {
        let mut mesh = TMFMesh::empty();
        mesh.set_vertices(self.vertices);
        mesh.set_normals(self.normals);
        mesh.set_uvs(self.uvs);
        mesh.set_vertex_triangles(self.vertex_triangles);
        mesh.set_normal_triangles(self.normal_triangles);
        mesh.set_uv_triangles(self.uv_triangles);
        mesh
    }
}

/// Collects the vertices, normals, texture coordinates (`V3`, `V3` and `V2`) and triangles of
/// a model; the items are shared by all its meshes, the triangles belong to the current one.
pub struct ModelImporter<V3, V2> {
    vertices: Vec<V3>,
    normals: Vec<V3>,
    uvs: Vec<V2>,
    vertex_triangles: Vec<IndexType>,
    normal_triangles: Vec<IndexType>,
    uv_triangles: Vec<IndexType>,
    name: String,
}

/// The parts made of the collected arrays: each pair of data and triangles pruned.
pub open spec fn parts_of<V3, V2>(
    parts: MeshParts<V3, V2>,
    vertices: Seq<V3>,
    normals: Seq<V3>,
    uvs: Seq<V2>,
    vertex_triangles: Seq<IndexType>,
    normal_triangles: Seq<IndexType>,
    uv_triangles: Seq<IndexType>,
) -> bool {
    &&& (parts.vertices@, parts.vertex_triangles@) == pruned(vertices, vertex_triangles)
    &&& (parts.normals@, parts.normal_triangles@) == pruned(normals, normal_triangles)
    &&& (parts.uvs@, parts.uv_triangles@) == pruned(uvs, uv_triangles)
}

/// A copy of the elements.
fn copy_of<T: Copy>(data: &Vec<T>) -> (res: Vec<T>)
    ensures
        res@ == data@,
{
    let mut res: Vec<T> = Vec::new();
    let mut i: usize = 0;
    while i < data.len()
        invariant
            i <= data@.len(),
            res@ == data@.take(i as int),
        decreases data@.len() - i,
    {
        res.push(data[i]);
        proof {
            assert(res@ =~= data@.take(i + 1));
        }
        i = i + 1;
    }
    proof {
        assert(data@.take(data@.len() as int) =~= data@);
    }
    res
}

impl<V3: Copy, V2: Copy> ModelImporter<V3, V2> {
    /// The vertices collected.
    pub closed spec fn vertices(&self) -> Seq<V3> {
        self.vertices@
    }

    /// The normals collected.
    pub closed spec fn normals(&self) -> Seq<V3> {
        self.normals@
    }

    /// The texture coordinates collected.
    pub closed spec fn uvs(&self) -> Seq<V2> {
        self.uvs@
    }

    /// The triangles of the current mesh: vertex, normal and texture indices.
    pub closed spec fn triangles(&self) -> (Seq<IndexType>, Seq<IndexType>, Seq<IndexType>) {
        (self.vertex_triangles@, self.normal_triangles@, self.uv_triangles@)
    }

    /// The name of the current mesh.
    pub closed spec fn name(&self) -> Seq<char> {
        self.name@
    }

    /// The vertices collected, as a slice.
    pub fn vertex_array(&self) -> (res: &[V3])
        ensures
            res@ == self.vertices(),
    {
        self.vertices.as_slice()
    }

    /// An importer with nothing collected and an empty name.
    pub fn new() -> (res: Self)
        ensures
            res.vertices() == Seq::<V3>::empty(),
            res.normals() == Seq::<V3>::empty(),
            res.uvs() == Seq::<V2>::empty(),
            res.triangles() == (Seq::<IndexType>::empty(), Seq::<IndexType>::empty(), Seq::<
                IndexType,
            >::empty()),
            res.name() == Seq::<char>::empty(),
    {
        Self {
            vertices: Vec::new(),
            normals: Vec::new(),
            uvs: Vec::new(),
            vertex_triangles: Vec::new(),
            normal_triangles: Vec::new(),
            uv_triangles: Vec::new(),
            name: String::new(),
        }
    }

    /// Ends the current mesh and starts one named `name`. Where the current mesh has vertex
    /// triangles, gives its arrays (pruned) and its name; the triangles are cleared, the
    /// items are kept for the next meshes.
    pub fn next_mesh(&mut self, name: String) -> (res: Option<(MeshParts<V3, V2>, String)>)
        ensures
            final(self).name() == name@,
            final(self).vertices() == old(self).vertices(),
            final(self).normals() == old(self).normals(),
            final(self).uvs() == old(self).uvs(),
            old(self).triangles().0.len() == 0 ==> res is None && final(self).triangles()
                == old(self).triangles(),
            old(self).triangles().0.len() > 0 ==> (res matches Some((parts, n)) && n@ == old(
                self,
            ).name() && parts_of(
                parts,
                old(self).vertices(),
                old(self).normals(),
                old(self).uvs(),
                old(self).triangles().0,
                old(self).triangles().1,
                old(self).triangles().2,
            )) && final(self).triangles() == (Seq::<IndexType>::empty(), Seq::<IndexType>::empty(), Seq::<
                IndexType,
            >::empty()),
    {
        let mut name = name;
        std::mem::swap(&mut self.name, &mut name);
        if self.vertex_triangles.len() == 0 {
            return None;
        }
        let parts = self.parts();
        self.vertex_triangles.clear();
        self.normal_triangles.clear();
        self.uv_triangles.clear();
        Some((parts, name))
    }

    /// The pruned arrays of what was collected.
    fn parts(&self) -> (parts: MeshParts<V3, V2>)
        ensures
            parts_of(
                parts,
                self.vertices(),
                self.normals(),
                self.uvs(),
                self.triangles().0,
                self.triangles().1,
                self.triangles().2,
            ),
    {
        let mut vertices = copy_of(&self.vertices);
        let mut vertex_triangles = copy_of(&self.vertex_triangles);
        let mut normals = copy_of(&self.normals);
        let mut normal_triangles = copy_of(&self.normal_triangles);
        let mut uvs = copy_of(&self.uvs);
        let mut uv_triangles = copy_of(&self.uv_triangles);
        fast_prune(&mut vertices, vertex_triangles.as_mut_slice());
        fast_prune(&mut normals, normal_triangles.as_mut_slice());
        fast_prune(&mut uvs, uv_triangles.as_mut_slice());
        MeshParts { vertices, normals, uvs, vertex_triangles, normal_triangles, uv_triangles }
    }

    /// Ends the model: the arrays of the last mesh (pruned) and its name.
    pub fn finish(self) -> (res: (MeshParts<V3, V2>, String))
        ensures
            res.1@ == self.name(),
            parts_of(
                res.0,
                self.vertices(),
                self.normals(),
                self.uvs(),
                self.triangles().0,
                self.triangles().1,
                self.triangles().2,
            ),
    {
        let parts = self.parts();
        (parts, self.name)
    }

    /// Adds a vertex.
    pub fn push_vertex(&mut self, vertex: V3)
        ensures
            final(self).vertices() == old(self).vertices().push(vertex),
            final(self).normals() == old(self).normals(),
            final(self).uvs() == old(self).uvs(),
            final(self).triangles() == old(self).triangles(),
            final(self).name() == old(self).name(),
    {
        self.vertices.push(vertex);
    }

    /// Adds a normal.
    pub fn push_normal(&mut self, normal: V3)
        ensures
            final(self).normals() == old(self).normals().push(normal),
            final(self).vertices() == old(self).vertices(),
            final(self).uvs() == old(self).uvs(),
            final(self).triangles() == old(self).triangles(),
            final(self).name() == old(self).name(),
    {
        self.normals.push(normal);
    }

    /// Adds a texture coordinate.
    pub fn push_uv(&mut self, uv: V2)
        ensures
            final(self).uvs() == old(self).uvs().push(uv),
            final(self).vertices() == old(self).vertices(),
            final(self).normals() == old(self).normals(),
            final(self).triangles() == old(self).triangles(),
            final(self).name() == old(self).name(),
    {
        self.uvs.push(uv);
    }

    /// Adds a face: a triangle, given as equally many (3) vertex, texture and normal indices.
    pub fn push_face(&mut self, vertex_indices: &[IndexType], uv_indices: &[IndexType], normal_indices: &[IndexType]) -> (res: Result<(), FaceError>)
        ensures
            final(self).vertices() == old(self).vertices(),
            final(self).normals() == old(self).normals(),
            final(self).uvs() == old(self).uvs(),
            final(self).name() == old(self).name(),
            !(vertex_indices@.len() == uv_indices@.len() && vertex_indices@.len() == normal_indices@.len())
                ==> res == Err::<(), FaceError>(
                FaceError::CountMismatch(vertex_indices@.len() as usize, uv_indices@.len() as usize, normal_indices@.len() as usize),
            ) && final(self).triangles() == old(self).triangles(),
            vertex_indices@.len() == uv_indices@.len() && vertex_indices@.len() == normal_indices@.len() ==> {
                &&& vertex_indices@.len() < 3 ==> res == Err::<(), FaceError>(FaceError::TooFewPoints(vertex_indices@.len() as usize))
                    && final(self).triangles() == old(self).triangles()
                &&& vertex_indices@.len() == 3 ==> res is Ok && final(self).triangles() == (
                    old(self).triangles().0 + vertex_indices@,
                    old(self).triangles().1 + normal_indices@,
                    old(self).triangles().2 + uv_indices@,
                )
                &&& vertex_indices@.len() > 3 ==> res == Err::<(), FaceError>(FaceError::NeedsTriangulation)
                    && final(self).triangles() == old(self).triangles()
            },
    {
        if !(vertex_indices.len() == uv_indices.len() && vertex_indices.len() == normal_indices.len()) {
            return Err(FaceError::CountMismatch(vertex_indices.len(), uv_indices.len(), normal_indices.len()));
        }
        if vertex_indices.len() < 3 {
            return Err(FaceError::TooFewPoints(vertex_indices.len()));
        }
        if vertex_indices.len() > 3 {
            return Err(FaceError::NeedsTriangulation);
        }
        self.vertex_triangles.extend_from_slice(vertex_indices);
        self.uv_triangles.extend_from_slice(uv_indices);
        self.normal_triangles.extend_from_slice(normal_indices);
        Ok(())
    }
}

} // verus!
