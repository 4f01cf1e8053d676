//! Validation of texture-array inputs: a texture array is built from a
//! list of images that must all share one size. A mismatch is a fatal
//! configuration error, reported before any render resource is created.

use vstd::prelude::*;

verus! {

/// A reported size mismatch: the first offending image, its size, and the
/// size the first image set.
#[derive(Debug, Clone, Copy, PartialEq, Eq, Structural)]
pub struct TextureDimensionError {
    pub index: usize,
    pub width: u32,
    pub height: u32,
    pub expected_width: u32,
    pub expected_height: u32,
}

/// Checks that every image size in the list equals the first one.
/// Succeeds exactly when all sizes agree; otherwise reports the first
/// image whose size differs, with both sizes.
pub fn check_texture_dimensions(dims: &Vec<(u32, u32)>) -> (r: Result<(), TextureDimensionError>)
    requires
        dims@.len() >= 1,
    ensures
        match r {
            Ok(_) => forall|i: int| 0 <= i < dims@.len() ==> (#[trigger] dims@[i]) == dims@[0],
            Err(e) => {
                &&& 0 < e.index < dims@.len()
                &&& dims@[e.index as int] != dims@[0]
                &&& forall|j: int| 0 <= j < e.index ==> (#[trigger] dims@[j]) == dims@[0]
                &&& (e.width, e.height) == dims@[e.index as int]
                &&& (e.expected_width, e.expected_height) == dims@[0]
            },
        },
{
    let (width, height) = dims[0];
    let mut i: usize = 1;
    while i < dims.len()
        invariant
            1 <= i <= dims@.len(),
            (width, height) == dims@[0],
            forall|j: int| 0 <= j < i ==> (#[trigger] dims@[j]) == dims@[0],
        decreases dims@.len() - i,
    {
        let (w, h) = dims[i];
        if w != width || h != height {
            return Err(
                TextureDimensionError {
                    index: i,
                    width: w,
                    height: h,
                    expected_width: width,
                    expected_height: height,
                },
            );
        }
        i = i + 1;
    }
    Ok(())
}

} // verus!
