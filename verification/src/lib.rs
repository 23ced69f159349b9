//! Generator for the batched polynomial-commitment opening routine of the
//! SHPLONK (BDFG21) scheme: extracts the canonical ordered query list from
//! constraint-system metadata, partitions queries into rotation sets, plans
//! non-overlapping scratch-memory addresses, and emits the ordered instruction
//! program implementing the batched opening check.

pub mod expr;
pub mod query;
pub mod sets;
pub mod layout;
pub mod emit;
pub mod pcs;
