//! The sugar-lowering stage of a compiler: it rewrites a type-annotated
//! expression tree, replacing the high-level convenience constructs — array
//! literals, interpolated strings, for-in loops — with primitive operations
//! (calls to resolved functions or built-in intrinsics, explicit temporaries,
//! explicit loops), while preserving source evaluation order.
//!
//! `ast` holds the typed tree and its mathematical model; `scope` the symbol
//! scope this stage consults; `pool` the shared definition store it extends;
//! `lower` the rewriter itself, verified against a functional specification of
//! the lowering; and `laws` the proved properties of that specification:
//! evaluation-order preservation, type-directed interpolation, the for-in
//! loop's shape, fresh-local uniqueness, and that no sugar node survives.

pub mod ast;
pub mod laws;
pub mod lower;
pub mod pool;
pub mod scope;
