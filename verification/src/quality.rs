//! Image quality as a pixel count, used as the tie-break between two files
//! that share a fingerprint.

use vstd::prelude::*;
use crate::images::{is_image, is_image_path};

verus! {

/// Pixel-count quality derived from read dimensions: the product of width
/// and height, undefined when the dimensions could not be read or their
/// product does not fit in a `u64`.
pub open spec fn spec_quality_of_dims(dims: Option<(u64, u64)>) -> Option<u64> {
    match dims {
        Some(d) => if d.0 * d.1 <= u64::MAX {
            Some((d.0 * d.1) as u64)
        } else {
            None
        },
        None => None,
    }
}

/// Quality comparison: known only when both sides are known, and then
/// `Some(true)` exactly when the first is strictly greater.
pub open spec fn spec_compare_quality(a: Option<u64>, b: Option<u64>) -> Option<bool> {
    match (a, b) {
        (Some(x), Some(y)) => Some(x > y),
        _ => None,
    }
}

/// Relies on `imagesize::size`: reads the header of the file at `path` and
/// returns its pixel dimensions; errors become `None`.  The result depends
/// on what is on disk, so nothing is promised of the values.
#[verifier::external_body]
fn image_dims(path: &str) -> (dims: Option<(u64, u64)>) {
    match imagesize::size(path) {
        Ok(d) => Some((d.width as u64, d.height as u64)),
        Err(_) => None,
    }
}

/// The pixel count of the file at `path`: defined only for paths with an
/// image extension whose dimensions can be read from disk.
pub fn path_quality(path: &str) -> (q: Option<u64>)
    ensures
        !is_image_path(path@) ==> q is None,
        exists|dims: Option<(u64, u64)>| q == #[trigger] spec_quality_of_dims(dims),
{
    if !is_image(path) {
        proof {
            assert(None::<u64> == spec_quality_of_dims(None::<(u64, u64)>));
        }
        return None;
    }
    match image_dims(path) {
        None => {
            proof {
                assert(None::<u64> == spec_quality_of_dims(None::<(u64, u64)>));
            }
            None
        },
        Some((w, h)) => {
            let q = w.checked_mul(h);
            proof {
                assert(q == spec_quality_of_dims(Some((w, h))));
            }
            q
        },
    }
}

/// Compares two qualities; the result is exactly
/// `spec_compare_quality(a, b)`.
pub fn compare_quality(a: Option<u64>, b: Option<u64>) -> (r: Option<bool>)
    ensures
        r == spec_compare_quality(a, b),
{
    match (a, b) {
        (Some(x), Some(y)) => Some(x > y),
        _ => None,
    }
}

/// Whether the image at `a` has strictly higher quality than the one at
/// `b`; `None` when either side's quality cannot be determined.
pub fn is_better_quality(a: &str, b: &str) -> (r: Option<bool>)
    ensures
        (!is_image_path(a@) || !is_image_path(b@)) ==> r is None,
        exists|qa: Option<u64>, qb: Option<u64>| r == #[trigger] spec_compare_quality(qa, qb),
{
    let qa = path_quality(a);
    let qb = path_quality(b);
    let r = compare_quality(qa, qb);
    proof {
        assert(r == spec_compare_quality(qa, qb));
    }
    r
}

} // verus!
