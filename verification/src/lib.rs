//! A small line-oriented scripting language for memory-constrained devices.
//!
//! Programs are stored as a flat, immutable byte buffer. Every construct is
//! recovered by streaming decode of that buffer: there is no heap-allocated
//! syntax tree. The crate covers the binary instruction encoding (with a
//! variable-width signed-integer scheme), the append-only program builder,
//! the zero-copy statement iterator, and the minimal execution engine.

pub mod builder;
pub mod codec;
pub mod element;
pub mod program;
pub mod text;

pub use builder::ProgramBuilder;
pub use codec::{END_ID, FUNCTION_ID, INTEGER1_ID, INTEGER2_ID, INTEGER3_ID, INTEGER4_ID};
pub use codec::{NOP_ID, RETURN_ID};
pub use element::{Element, Error, Value};
pub use program::{ElementIter, Program};
