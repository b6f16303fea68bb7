//! The segment kinds and compression kinds of the first version of the format.
use vstd::prelude::*;

verus! {

/// A kind of segment of the first version of the format.
#[derive(Clone, Copy, Debug, PartialEq, Eq, Structural)]
pub enum SectionType {
    Invalid,
    VertexSegment,
    VertexTriangleSegment,
    NormalSegment,
    NormalTriangleSegment,
    UvSegment,
    UvTriangleSegment,
    MaterialInfo,
    Materialtriangles,
}

/// The kind that a code stands for; codes outside 1 to 6 are invalid.
pub open spec fn spec_section_from_u16(input: u16) -> SectionType {
    match input {
        1 => SectionType::VertexSegment,
        2 => SectionType::VertexTriangleSegment,
        3 => SectionType::NormalSegment,
        4 => SectionType::NormalTriangleSegment,
        5 => SectionType::UvSegment,
        6 => SectionType::UvTriangleSegment,
        _ => SectionType::Invalid,
    }
}

impl SectionType {
    /// The kind that `input` stands for.
    pub fn from_u16(input: u16) -> (kind: Self)
        ensures
            kind == spec_section_from_u16(input),
    {
        match input {
            1 => Self::VertexSegment,
            2 => Self::VertexTriangleSegment,
            3 => Self::NormalSegment,
            4 => Self::NormalTriangleSegment,
            5 => Self::UvSegment,
            6 => Self::UvTriangleSegment,
            _ => Self::Invalid,
        }
    }
}

/// A kind of compression of the first version of the format.
#[derive(Clone, Copy, Debug, PartialEq, Eq, Structural)]
pub enum CompressionType {
    NoCompression,
    Ommited,
    UnalignedLZZ,
}

impl CompressionType {
    /// The compression that `input` (0, 1 or 2; anything else panics) stands for.
    pub fn from_u8(input: u8) -> (kind: Self)
        requires
            input <= 2,
        ensures
            input == 0 ==> kind == Self::NoCompression,
            input == 1 ==> kind == Self::Ommited,
            input == 2 ==> kind == Self::UnalignedLZZ,
    {
        match input {
            0 => Self::NoCompression,
            1 => Self::Ommited,
            _ => Self::UnalignedLZZ,
        }
    }
}

} // verus!
