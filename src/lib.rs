//! Arithmetization core of a zkVM proving backend: the LogUp permutation
//! argument between tables and the per-access memory-consistency columns.
pub mod field;
pub mod interaction;
pub mod memory;
pub mod permutation;
pub mod runtime;
