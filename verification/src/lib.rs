//! Reading and writing of meshes in the tight model format (TMF): the container format, its
//! segments, and the unaligned binary arrays (UBA) that pack data with exactly the bits it needs.
pub mod bits;
pub mod custom_data;
pub mod lz77;
pub mod material;
pub mod mesh;
pub mod metadata;
pub mod model_importer;
pub mod normals;
pub mod obj;
pub mod packing;
pub mod pile_map;
pub mod read_extension;
pub mod reorder_triangles;
pub mod segment_plan;
pub mod tangents;
pub mod tmf;
pub mod tmf_exporter;
pub mod tmf_importer;
pub mod tmf_segment;
pub mod unaligned_lz;
pub mod unaligned_lzz;
pub mod unaligned_rw;
pub mod unify_data;
pub mod utilis;
pub mod uv;
pub mod verify;
pub mod vertices;

use vstd::prelude::*;

verus! {

/// Major version of the format this library writes.
pub const TMF_MAJOR: u16 = 0;

/// Minor version of the format this library writes.
pub const TMF_MINOR: u16 = 2;

/// Major version a reader needs to read what this library writes.
pub const MIN_TMF_MAJOR: u16 = 0;

/// Minor version a reader needs to read what this library writes.
pub const MIN_TMF_MINOR: u16 = 2;

/// Longest segment (in elements) that is read; longer ones are refused as invalid.
pub const MAX_SEG_SIZE: usize = 0x8000_0000;

/// Index type used for representing triangle indices.
pub type IndexType = u32;

/// Why a stream of bytes could not be read.
#[derive(Clone, Copy, Debug, PartialEq, Eq, Structural)]
pub enum StreamError {
    /// The stream ended before all the data it announced.
    UnexpectedEof,
    /// A name in the stream is not valid UTF-8.
    InvalidUtf8,
    /// A length in the stream does not fit in this machine's address space.
    LengthOverflow,
}

/// An error that occurred while loading a TMF mesh.
#[derive(Clone, Copy, Debug, PartialEq, Eq, Structural)]
pub enum TMFImportError {
    /// The data could not be read.
    IO(StreamError),
    /// A segment uses an unknown compression type.
    CompressionTypeUnknown(u8),
    /// A method which should return one mesh was called, but the file had no meshes.
    NoMeshes,
    /// A method which should return one mesh was called, but the file had more than one.
    TooManyMeshes,
    /// The source was not a TMF file.
    NotTMFFile,
    /// The file needs a newer version of the format than this one.
    NewerVersionRequired,
    /// A segment announced more elements than the maximum (2^31); it was not read.
    SegmentTooLong,
    /// A segment that is derived from an earlier one came first.
    NoDataBeforeOmmitedSegment,
    /// A precision of 64 bits or more, which is invalid.
    InvalidPrecision(u8),
}

/// An error that occurred while saving a TMF mesh.
#[derive(Clone, Copy, Debug, PartialEq, Eq, Structural)]
pub enum TMFExportError {
    /// The data could not be written.
    IO(StreamError),
}

/// A clone of the first element.
pub fn vec_first<T: Clone>(vec: Vec<T>) -> (first: T)
    requires
        vec@.len() > 0,
    ensures
        cloned(vec@[0], first),
{
    vec[0].clone()
}

/// The one element of `meshes`: an error where there is none or more than one.
pub fn single_mesh<T>(meshes: Vec<T>) -> (res: Result<T, TMFImportError>)
    ensures
        meshes@.len() == 0 ==> res == Err::<T, TMFImportError>(TMFImportError::NoMeshes),
        meshes@.len() > 1 ==> res == Err::<T, TMFImportError>(TMFImportError::TooManyMeshes),
        meshes@.len() == 1 ==> res == Ok::<T, TMFImportError>(meshes@[0]),
{
    if meshes.len() == 0 {
        Err(TMFImportError::NoMeshes)
    } else if meshes.len() > 1 {
        Err(TMFImportError::TooManyMeshes)
    } else {
        let mut meshes = meshes;
        Ok(meshes.pop().unwrap())
    }
}

} // verus!
