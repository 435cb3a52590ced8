//! Lua 4.0 chunks: decoding, lifting and printing.
pub mod ast;
pub mod decoder;
pub mod format;
pub mod lift;
pub mod number;
pub mod opcode;
pub mod parser;
pub mod proto;
pub mod scribe;

pub use decoder::Decoder;
pub use opcode::{Header, Op, Opcode};
pub use parser::Parser;
pub use proto::Proto;
pub use scribe::Scribe;
