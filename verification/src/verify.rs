//! Checks of the integrity of mesh data.
use crate::IndexType;
use vstd::prelude::*;

verus! {

/// The index at `j` is the first in `array` that does not fit in an array of `length`
/// elements.
pub open spec fn first_outside(array: Seq<IndexType>, length: IndexType, j: int) -> bool {
    &&& 0 <= j < array.len()
    &&& array[j] >= length
    &&& forall|i: int| 0 <= i < j ==> #[trigger] array[i] < length
}

/// Checks whether the indices fit inside an array of `length` elements: `None` if they all
/// do, or the first index that does not.
pub fn indices_inside_array(array: &[IndexType], length: IndexType) -> (res: Option<IndexType>)
    ensures
        res is None <==> forall|i: int| 0 <= i < array@.len() ==> #[trigger] array@[i] < length,
        res matches Some(index) ==> exists|j: int|
            first_outside(array@, length, j) && #[trigger] array@[j] == index,
{
    let mut i: usize = 0;
    while i < array.len()
        invariant
            i <= array@.len(),
            forall|k: int| 0 <= k < i ==> #[trigger] array@[k] < length,
        decreases array@.len() - i,
    {
        if array[i] >= length {
            proof {
                assert(first_outside(array@, length, i as int));
            }
            return Some(array[i]);
        }
        i = i + 1;
    }
    None
}

/// What is wrong with a triangle array against the array it indexes.
#[derive(Clone, Copy, Debug, PartialEq, Eq, Structural)]
pub enum IndexError {
    /// The triangles are present but the array they index is not.
    ArrayMissing,
    /// An index (the first) does not fit in the array of the given length.
    IndexOutside(IndexType, IndexType),
}

/// Checks a triangle array against the length of the array it indexes (each optional):
/// triangles without the array are an error, as is an index past its end; no triangles is
/// no error. The length is taken as an index, as the file stores it.
pub fn check_triangles(array_len: Option<usize>, triangles: Option<&[IndexType]>) -> (res: Result<(), IndexError>)
    ensures
        match (array_len, triangles) {
            (None, Some(_)) => res == Err::<(), IndexError>(IndexError::ArrayMissing),
            (Some(n), Some(t)) => {
                let l = n as IndexType;
                &&& res is Ok <==> forall|i: int| 0 <= i < t@.len() ==> #[trigger] t@[i] < l
                &&& res is Err ==> (res matches Err(IndexError::IndexOutside(index, len)) && len == l
                    && exists|j: int| first_outside(t@, l, j) && #[trigger] t@[j] == index)
            },
            _ => res is Ok,
        },
{
    match (array_len, triangles) {
        (None, Some(_)) => Err(IndexError::ArrayMissing),
        (Some(n), Some(t)) => {
            let l = n as IndexType;
            match indices_inside_array(t, l) {
                Some(index) => Err(IndexError::IndexOutside(index, l)),
                None => Ok(()),
            }
        },
        _ => Ok(()),
    }
}

} // verus!
