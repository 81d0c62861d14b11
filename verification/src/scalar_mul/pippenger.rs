//! The multiscalar-multiplication capability of the backend: declared, but
//! deliberately unimplemented.  Every invocation reports the unsupported
//! outcome; callers must treat this backend as lacking batch-multiplication
//! acceleration.

use vstd::prelude::*;
use crate::edwards::EdwardsPoint;
use crate::scalar::Scalar;

verus! {

/// Multiscalar multiplication is not supported by this backend.
#[derive(Debug, Clone, Copy, PartialEq, Eq)]
pub struct MultiscalarUnsupported;

/// The (empty) multiscalar strategy of this backend.
pub struct Pippenger;

impl Pippenger {
    /// Declares the combined multiplication of a sequence of scalars with a
    /// sequence of optional points.  This backend never computes it: the
    /// call fails immediately and unconditionally with the unsupported
    /// outcome, for any input.
    pub fn optional_multiscalar_mul(
        _scalars: &Vec<Scalar>,
        _points: &Vec<Option<EdwardsPoint>>,
    ) -> (r: Result<EdwardsPoint, MultiscalarUnsupported>)
        ensures
            r is Err,
    {
        Err(MultiscalarUnsupported)
    }
}

} // verus!
