//! What a chunk's header says about how its bytes are to be read.
use vstd::prelude::*;

verus! {

/// Byte order of the integers in a chunk.
#[derive(Debug, Clone, Copy, PartialEq, Eq, Structural)]
pub enum Endian {
    Little,
    Big,
}

/// Width of the numbers in a chunk.
#[derive(Debug, Clone, Copy, PartialEq, Eq, Structural)]
pub enum NumberType {
    F32,
    F64,
}

/// A position in the bytes of a chunk, with the integer widths in force.
pub struct CodeReader<'a> {
    pub code: &'a [u8],
    pub cursor: usize,
    pub size_int: usize,
    pub size_t: usize,
}

} // verus!
