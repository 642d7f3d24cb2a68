//! Lookup reduction of a signed comparison instruction and the per-cycle
//! witness assembly of a uniform constraint system, over the scalar field of
//! Curve25519.

pub mod field;
pub mod inputs;
pub mod instruction;
pub mod math;
pub mod reduction;
pub mod shape;
pub mod snark;
pub mod subtable;
pub mod witness;
