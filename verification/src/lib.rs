//! A vendor-independent vector computation core.
//!
//! A caller applies a named operation (byte-order reversal, reciprocal
//! estimation) uniformly to a vector value, regardless of which hardware
//! acceleration tier is available. Every implementation of an operation is
//! proved observably equivalent to the always-available scalar fallback, so
//! the tier that the dispatcher binds never changes the result.

pub mod dispatch;
pub mod endian;
pub mod lanes;
pub mod mask;
pub mod recip;
pub mod shape;
pub mod vector;
