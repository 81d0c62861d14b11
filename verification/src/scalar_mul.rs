//! The scalar-multiplication algorithms of the backend, all expressed purely
//! through the affine point operations.

pub mod pippenger;
pub mod variable_base;
pub mod vartime_double_base;
