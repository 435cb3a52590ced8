//! Recovery of Lua 4.0 source text from precompiled Lua 4.0 chunks.
//!
//! The work is done in three stages: [`lua40::Decoder`] turns the bytes of a
//! chunk into a tree of function prototypes, [`lua40::Parser`] lifts the
//! instruction stream of one prototype into a syntax tree by simulating the
//! operand stack, and [`lua40::Scribe`] writes the tree as source text.
pub mod errors;
pub mod lua40;
pub mod reader;
pub mod text;
