//! Names of the materials of a model and the triangle ranges that use them.
use crate::IndexType;
use vstd::prelude::*;

verus! {

/// The materials of a model: their names, and groups of triangles with a material each.
#[derive(Clone)]
pub struct MaterialInfo {
    materials: Vec<String>,
    material_groups: Vec<(IndexType, IndexType)>,
}

impl MaterialInfo {
    /// The names of all materials.
    pub closed spec fn materials(&self) -> Seq<String> {
        self.materials@
    }

    /// The material groups.
    pub closed spec fn material_groups(&self) -> Seq<(IndexType, IndexType)> {
        self.material_groups@
    }

    /// Material info holding `materials` and `material_groups`.
    pub fn create(materials: Vec<String>, material_groups: Vec<(IndexType, IndexType)>) -> (info:
        Self)
        ensures
            info.materials() == materials@,
            info.material_groups() == material_groups@,
    {
        Self { materials, material_groups }
    }
}

} // verus!
