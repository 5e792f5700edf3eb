//! Branch-target tracing for a compiler's intermediate representation.
//!
//! A module of functions and basic blocks is rewritten so that every block
//! that a two-way conditional branch can reach starts with a call to a
//! variadic trace routine. The call names the block: its source file, its
//! range of source lines, a numeric identifier, the owning function and the
//! number of parameters of that function.
//!
//! The module is held as plain data (`ir`), so the whole rewrite is a
//! function from one module to the next, and its contracts are stated over
//! the views of those types.

pub mod diagnostics;
pub mod ids;
pub mod inject;
pub mod ir;
pub mod laws;
pub mod location;
pub mod message;
pub mod model;
pub mod my_pass;
pub mod search;
