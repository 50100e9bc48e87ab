//! A verified interpreter for an eight-instruction byte-tape language.
//!
//! A program text is parsed into a [`Program`]: its instructions in order,
//! with the position of each bracket's partner resolved. An [`Engine`] then
//! walks the program over a tape of byte cells ([`Cells`]), one instruction
//! per call of [`Engine::step`].
//!
//! Two choices are fixed here. The input instruction reads from a source
//! that always yields zero. The output instruction writes the character
//! whose code point is the cell's value, so that every cell can be written.

pub mod brackets;
pub mod cells;
pub mod engine;
pub mod error;
pub mod operation;
pub mod program;
pub mod semantics;

pub use cells::Cells;
pub use engine::{Engine, Step};
pub use error::Error;
pub use operation::Operation;
pub use program::Program;
