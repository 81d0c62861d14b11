//! Edwards-curve group arithmetic backend for a proving virtual machine.
//!
//! Points are kept in affine coordinates as fixed 16-word little-endian
//! buffers, the layout that the surrounding execution environment expects of
//! its accelerated point-addition primitive.  Every algorithm above that
//! primitive — conversions, single-base and double-base double-and-add — is
//! specified against a mathematical model of the curve over the prime field
//! of order 2^255 - 19 and verified.

pub mod bigint;
pub mod constants;
pub mod curve;
pub mod edwards;
pub mod field;
pub mod host;
pub mod limbs;
pub mod scalar;
pub mod scalar_mul;

