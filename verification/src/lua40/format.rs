//! The byte layout of a Lua 4.0 chunk, as functions on byte sequences.
//!
//! Each function reads one construct at a position and gives its value
//! together with the number of bytes that the construct takes, or the error
//! that a decoder must report there.
use vstd::prelude::*;
use vstd::utf8::*;
use crate::errors::ErrorView;
use crate::lua40::number::Number;
use crate::lua40::opcode::{Header, Op, LUA_VERSION};
use crate::lua40::proto::{ConstantsView, LocalView, ProtoView};
use crate::reader::{Endian, NumberType};

verus! {

/// The value of a construct and the number of bytes that it takes.
pub type Parsed<T> = Result<(T, nat), ErrorView>;

/// The first byte of a chunk: the escape character.
pub const ID_CHUNK: u8 = 27;

/// The bit pattern of the number `3.14159265358979323846E8` in double
/// precision, which ends the header of a chunk with numbers of eight bytes.
pub const TEST_NUMBER_BITS: u64 = 0x41B2_B9B0_A15B_E612;

/// The bit pattern of the same number rounded to single precision.
pub const TEST_NUMBER_BITS_SINGLE: u64 = 0x4D95_CD85;

/// The decoder error with the given reason at the given byte offset.
pub open spec fn fault(reason: Seq<char>, offset: nat) -> ErrorView {
    ErrorView::Decoder(reason).at_byte(offset)
}

/// The number that `s` stands for, lowest byte first.
pub open spec fn le_value(s: Seq<u8>) -> nat
    decreases s.len(),
{
    if s.len() == 0 {
        0
    } else {
        s[0] as nat + 256 * le_value(s.drop_first())
    }
}

/// The number that `s` stands for, highest byte first.
pub open spec fn be_value(s: Seq<u8>) -> nat
    decreases s.len(),
{
    if s.len() == 0 {
        0
    } else {
        256 * be_value(s.drop_last()) + s.last() as nat
    }
}

/// The number that `s` stands for in the given byte order.
pub open spec fn uint_value(s: Seq<u8>, endian: Endian) -> nat {
    match endian {
        Endian::Little => le_value(s),
        Endian::Big => be_value(s),
    }
}

/// The next `n` bytes.
pub open spec fn spec_bytes(bytes: Seq<u8>, pos: nat, n: nat) -> Parsed<Seq<u8>> {
    if pos + n <= bytes.len() {
        Ok((bytes.subrange(pos as int, (pos + n) as int), n))
    } else {
        Err(fault("unexpected end of chunk"@, pos))
    }
}

/// An unsigned integer of `width` bytes.
pub open spec fn spec_uint(bytes: Seq<u8>, pos: nat, width: nat, endian: Endian) -> Parsed<nat> {
    match spec_bytes(bytes, pos, width) {
        Err(e) => Err(e),
        Ok((s, n)) => Ok((uint_value(s, endian), n)),
    }
}

/// One byte.
pub open spec fn spec_u8(bytes: Seq<u8>, pos: nat) -> Parsed<u8> {
    if pos < bytes.len() {
        Ok((bytes[pos as int], 1))
    } else {
        Err(fault("unexpected end of chunk"@, pos))
    }
}

/// An unsigned integer of two bytes.
pub open spec fn spec_u16(bytes: Seq<u8>, pos: nat, endian: Endian) -> Parsed<u16> {
    match spec_uint(bytes, pos, 2, endian) {
        Err(e) => Err(e),
        Ok((v, n)) => Ok((v as u16, n)),
    }
}

/// An unsigned integer of four bytes.
pub open spec fn spec_u32(bytes: Seq<u8>, pos: nat, endian: Endian) -> Parsed<u32> {
    match spec_uint(bytes, pos, 4, endian) {
        Err(e) => Err(e),
        Ok((v, n)) => Ok((v as u32, n)),
    }
}

/// An unsigned integer of eight bytes.
pub open spec fn spec_u64(bytes: Seq<u8>, pos: nat, endian: Endian) -> Parsed<u64> {
    match spec_uint(bytes, pos, 8, endian) {
        Err(e) => Err(e),
        Ok((v, n)) => Ok((v as u64, n)),
    }
}

/// A `size_t` of the width that the header gives.
pub open spec fn spec_size_t(bytes: Seq<u8>, pos: nat, h: Header) -> Parsed<usize> {
    if h.size_t == 2 || h.size_t == 4 || h.size_t == 8 {
        match spec_uint(bytes, pos, h.size_t as nat, h.endianess) {
            Err(e) => Err(e),
            Ok((v, n)) => if v <= usize::MAX {
                Ok((v as usize, n))
            } else {
                Err(fault("size out of range"@, pos))
            },
        }
    } else {
        Err(fault("unknown size_t"@, pos))
    }
}

/// An `int` of the width that the header gives.
pub open spec fn spec_int(bytes: Seq<u8>, pos: nat, h: Header) -> Parsed<u32> {
    if h.size_int == 2 || h.size_int == 4 || h.size_int == 8 {
        match spec_uint(bytes, pos, h.size_int as nat, h.endianess) {
            Err(e) => Err(e),
            Ok((v, n)) => if v <= u32::MAX {
                Ok((v as u32, n))
            } else {
                Err(fault("integer out of range"@, pos))
            },
        }
    } else {
        Err(fault("unknown int size"@, pos))
    }
}

/// An instruction word: four bytes.
pub open spec fn spec_word(bytes: Seq<u8>, pos: nat, h: Header) -> Parsed<u32> {
    spec_u32(bytes, pos, h.endianess)
}

/// A number constant of the width that the header gives.
pub open spec fn spec_number(bytes: Seq<u8>, pos: nat, h: Header) -> Parsed<Number> {
    match h.number_type {
        NumberType::F32 => match spec_uint(bytes, pos, 4, h.endianess) {
            Err(e) => Err(e),
            Ok((v, n)) => Ok((Number { bits: v as u64, single: true }, n)),
        },
        NumberType::F64 => match spec_uint(bytes, pos, 8, h.endianess) {
            Err(e) => Err(e),
            Ok((v, n)) => Ok((Number { bits: v as u64, single: false }, n)),
        },
    }
}

/// A string: its length as a `size_t`, then that many bytes, the last of
/// which is the only NUL among them; the bytes before it are UTF-8.
#[verifier::opaque]
pub open spec fn spec_string(bytes: Seq<u8>, pos: nat, h: Header) -> Parsed<Seq<char>> {
    match spec_size_t(bytes, pos, h) {
        Err(e) => Err(e),
        Ok((len, n1)) => match spec_bytes(bytes, pos + n1, len as nat) {
            Err(e) => Err(e),
            Ok((raw, n2)) => if raw.len() == 0 || raw.last() != 0 {
                Err(fault("string does not end in NUL"@, pos))
            } else if raw.drop_last().contains(0) {
                Err(fault("string holds a NUL"@, pos))
            } else if !valid_utf8(raw.drop_last()) {
                Err(fault("string is not UTF-8"@, pos))
            } else {
                Ok((decode_utf8(raw.drop_last()), n1 + n2))
            },
        },
    }
}

/// A debug record of a local variable: its name and its live range.
#[verifier::opaque]
pub open spec fn spec_local(bytes: Seq<u8>, pos: nat, h: Header) -> Parsed<LocalView> {
    match spec_string(bytes, pos, h) {
        Err(e) => Err(e),
        Ok((varname, n1)) => match spec_int(bytes, pos + n1, h) {
            Err(e) => Err(e),
            Ok((startpc, n2)) => match spec_int(bytes, pos + n1 + n2, h) {
                Err(e) => Err(e),
                Ok((endpc, n3)) => Ok((LocalView { varname, startpc, endpc }, n1 + n2 + n3)),
            },
        },
    }
}

/// `n` items in a row, each read by `item`.
#[verifier::opaque]
pub open spec fn spec_list<T>(
    bytes: Seq<u8>,
    pos: nat,
    n: nat,
    item: spec_fn(Seq<u8>, nat) -> Parsed<T>,
) -> Parsed<Seq<T>>
    decreases n,
{
    if n == 0 {
        Ok((Seq::empty(), 0))
    } else {
        match spec_list(bytes, pos, (n - 1) as nat, item) {
            Err(e) => Err(e),
            Ok((front, used)) => match item(bytes, pos + used) {
                Err(e) => Err(e),
                Ok((v, k)) => Ok((front.push(v), used + k)),
            },
        }
    }
}

/// A count as an `int`, then that many items, each read by `item`.
#[verifier::opaque]
pub open spec fn spec_counted<T>(
    bytes: Seq<u8>,
    pos: nat,
    h: Header,
    item: spec_fn(Seq<u8>, nat) -> Parsed<T>,
) -> Parsed<Seq<T>> {
    match spec_int(bytes, pos, h) {
        Err(e) => Err(e),
        Ok((n, n1)) => match spec_list(bytes, pos + n1, n as nat, item) {
            Err(e) => Err(e),
            Ok((items, n2)) => Ok((items, n1 + n2)),
        },
    }
}

/// The reader of one `int`.
pub open spec fn int_item(h: Header) -> spec_fn(Seq<u8>, nat) -> Parsed<u32> {
    |bytes: Seq<u8>, pos: nat| spec_int(bytes, pos, h)
}

/// The reader of one instruction word.
pub open spec fn word_item(h: Header) -> spec_fn(Seq<u8>, nat) -> Parsed<u32> {
    |bytes: Seq<u8>, pos: nat| spec_word(bytes, pos, h)
}

/// The reader of one number constant.
pub open spec fn number_item(h: Header) -> spec_fn(Seq<u8>, nat) -> Parsed<Number> {
    |bytes: Seq<u8>, pos: nat| spec_number(bytes, pos, h)
}

/// The reader of one string.
pub open spec fn string_item(h: Header) -> spec_fn(Seq<u8>, nat) -> Parsed<Seq<char>> {
    |bytes: Seq<u8>, pos: nat| spec_string(bytes, pos, h)
}

/// The reader of one debug record.
pub open spec fn local_item(h: Header) -> spec_fn(Seq<u8>, nat) -> Parsed<LocalView> {
    |bytes: Seq<u8>, pos: nat| spec_local(bytes, pos, h)
}

/// The table of local variables.
pub open spec fn spec_locals(bytes: Seq<u8>, pos: nat, h: Header) -> Parsed<Seq<LocalView>> {
    spec_counted(bytes, pos, h, local_item(h))
}

/// The table of source lines.
pub open spec fn spec_lines(bytes: Seq<u8>, pos: nat, h: Header) -> Parsed<Seq<u32>> {
    spec_counted(bytes, pos, h, int_item(h))
}

/// The instruction words.
pub open spec fn spec_code(bytes: Seq<u8>, pos: nat, h: Header) -> Parsed<Seq<u32>> {
    spec_counted(bytes, pos, h, word_item(h))
}

/// The first `n` instructions of `code`, decoded; or the error of the first
/// word among them that does not decode, at its offset, where the words
/// start at `base`.
#[verifier::opaque]
pub open spec fn spec_ops(h: Header, code: Seq<u32>, base: nat, n: nat) -> Result<Seq<Op>, ErrorView>
    decreases n,
{
    if n == 0 {
        Ok(Seq::empty())
    } else {
        match spec_ops(h, code, base, (n - 1) as nat) {
            Err(e) => Err(e),
            Ok(front) => match h.decoded(code[n - 1]) {
                Err(e) => Err(e.at_byte(base + 4 * (n - 1) as nat)),
                Ok(op) => Ok(front.push(op)),
            },
        }
    }
}

/// The first byte of a chunk, which is the escape character.
pub open spec fn spec_bytemark(bytes: Seq<u8>, pos: nat) -> Parsed<()> {
    match spec_u8(bytes, pos) {
        Err(e) => Err(e),
        Ok((mark, n)) => if mark == ID_CHUNK {
            Ok(((), n))
        } else {
            Err(fault("chunk bytemark must be 'Esc'(27)"@, pos))
        },
    }
}

/// The signature of a chunk: the three letters `Lua`.
pub open spec fn spec_signature(bytes: Seq<u8>, pos: nat) -> Parsed<()> {
    match spec_bytes(bytes, pos, 3) {
        Err(e) => Err(e),
        Ok((signature, n)) => if signature == seq![0x4Cu8, 0x75u8, 0x61u8] {
            Ok(((), n))
        } else {
            Err(fault("bad signature"@, pos))
        },
    }
}

/// The version byte, which is that of Lua 4.0.
pub open spec fn spec_version(bytes: Seq<u8>, pos: nat) -> Parsed<u8> {
    match spec_u8(bytes, pos) {
        Err(e) => Err(e),
        Ok((version, n)) => if version == LUA_VERSION {
            Ok((version, n))
        } else {
            Err(fault("expected Lua version 4.0(0x40)"@, pos))
        },
    }
}

/// The byte order: a zero byte for big-endian, any other for little-endian.
pub open spec fn spec_endianess(bytes: Seq<u8>, pos: nat) -> Parsed<Endian> {
    match spec_u8(bytes, pos) {
        Err(e) => Err(e),
        Ok((mark, n)) => Ok(
            (
                if mark == 0 {
                    Endian::Big
                } else {
                    Endian::Little
                },
                n,
            ),
        ),
    }
}

/// The seven size bytes of a header: the sizes of `int`, `size_t` and an
/// instruction word in bytes, of an instruction, an opcode and the field `B`
/// in bits, and of a number in bytes, which is four or eight. The result is
/// the header with the given version and byte order.
pub open spec fn spec_sizes(bytes: Seq<u8>, pos: nat, version: u8, endianess: Endian) -> Parsed<
    Header,
> {
    if pos + 7 > bytes.len() {
        Err(
            fault(
                "unexpected end of chunk"@,
                if pos <= bytes.len() {
                    bytes.len()
                } else {
                    pos
                },
            ),
        )
    } else if bytes[pos as int + 6] != 4 && bytes[pos as int + 6] != 8 {
        Err(fault("unknown number size"@, pos + 6))
    } else {
        Ok(
            (
                Header {
                    version,
                    endianess,
                    size_int: bytes[pos as int],
                    size_t: bytes[pos as int + 1],
                    size_instr: bytes[pos as int + 2],
                    size_instr_arg: bytes[pos as int + 3],
                    size_op: bytes[pos as int + 4],
                    size_b: bytes[pos as int + 5],
                    number_type: if bytes[pos as int + 6] == 4 {
                        NumberType::F32
                    } else {
                        NumberType::F64
                    },
                },
                7,
            ),
        )
    }
}

/// The number that ends the header: it must be the test number in the
/// format that the header gives.
pub open spec fn spec_test_number(bytes: Seq<u8>, pos: nat, h: Header) -> Parsed<Number> {
    match spec_number(bytes, pos, h) {
        Err(e) => Err(e),
        Ok((number, n)) => if number.single && number.bits != TEST_NUMBER_BITS_SINGLE {
            Err(fault("unknown f32 number format"@, pos))
        } else if !number.single && number.bits != TEST_NUMBER_BITS {
            Err(fault("unknown f64 number format"@, pos))
        } else {
            Ok((number, n))
        },
    }
}

/// The header of a chunk: the escape character, the signature, the version,
/// the byte order, the sizes, which must make a supported layout, and the
/// test number.
#[verifier::opaque]
pub open spec fn spec_header(bytes: Seq<u8>, pos: nat) -> Parsed<Header> {
    match spec_bytemark(bytes, pos) {
        Err(e) => Err(e),
        Ok((_, n1)) => match spec_signature(bytes, pos + n1) {
            Err(e) => Err(e),
            Ok((_, n2)) => match spec_version(bytes, pos + n1 + n2) {
                Err(e) => Err(e),
                Ok((version, n3)) => match spec_endianess(bytes, pos + n1 + n2 + n3) {
                    Err(e) => Err(e),
                    Ok((endianess, n4)) => match spec_sizes(
                        bytes,
                        pos + n1 + n2 + n3 + n4,
                        version,
                        endianess,
                    ) {
                        Err(e) => Err(e),
                        Ok((header, n5)) => if !header.supported() {
                            Err(
                                fault(
                                    "unsupported instruction layout"@,
                                    pos + n1 + n2 + n3 + n4,
                                ),
                            )
                        } else {
                            match spec_test_number(
                                bytes,
                                pos + n1 + n2 + n3 + n4 + n5,
                                header,
                            ) {
                                Err(e) => Err(e),
                                Ok((_, n6)) => Ok((header, n1 + n2 + n3 + n4 + n5 + n6)),
                            }
                        },
                    },
                },
            },
        },
    }
}

/// A chunk: its header, then its top-level function.
pub open spec fn spec_chunk(bytes: Seq<u8>, pos: nat) -> Parsed<(Header, ProtoView)> {
    match spec_header(bytes, pos) {
        Err(e) => Err(e),
        Ok((header, n1)) => match spec_function(bytes, pos + n1, header) {
            Err(e) => Err(e),
            Ok((proto, n2)) => Ok(((header, proto), n1 + n2)),
        },
    }
}

/// What is left to read from `pos`, for the termination of the functions
/// below.
pub open spec fn remaining(bytes: Seq<u8>, pos: nat) -> nat {
    if pos <= bytes.len() {
        (bytes.len() - pos) as nat
    } else {
        0
    }
}

/// The fields that open a function: its source name, the line where it is
/// defined, the number of its parameters, whether it takes a variable number
/// of them, and its stack size.
#[verifier::opaque]
pub open spec fn spec_function_head(bytes: Seq<u8>, pos: nat, h: Header) -> Parsed<
    (Seq<char>, u32, u32, bool, u32),
> {
    match spec_string(bytes, pos, h) {
        Err(e) => Err(e),
        Ok((source, n1)) => match spec_int(bytes, pos + n1, h) {
            Err(e) => Err(e),
            Ok((line_defined, n2)) => match spec_int(bytes, pos + n1 + n2, h) {
                Err(e) => Err(e),
                Ok((num_params, n3)) => match spec_u8(bytes, pos + n1 + n2 + n3) {
                    Err(e) => Err(e),
                    Ok((vararg, n4)) => match spec_int(bytes, pos + n1 + n2 + n3 + n4, h) {
                        Err(e) => Err(e),
                        Ok((max_stack, n5)) => Ok(
                            (
                                (source, line_defined, num_params, vararg != 0, max_stack),
                                n1 + n2 + n3 + n4 + n5,
                            ),
                        ),
                    },
                },
            },
        },
    }
}

/// A function prototype: its opening fields, the table of locals, the table
/// of lines, the constants and the code, in this order. The line table is
/// empty or has one line for each instruction word, and every word decodes.
#[verifier::opaque]
pub open spec fn spec_function(bytes: Seq<u8>, pos: nat, h: Header) -> Parsed<ProtoView>
    decreases remaining(bytes, pos), 0nat, 2nat,
{
    match spec_function_head(bytes, pos, h) {
        Err(e) => Err(e),
        Ok((head, n1)) => match spec_locals(bytes, pos + n1, h) {
            Err(e) => Err(e),
            Ok((locals, n2)) => match spec_lines(bytes, pos + n1 + n2, h) {
                Err(e) => Err(e),
                Ok((lines, n3)) => match spec_constants(bytes, pos + n1 + n2 + n3, h) {
                    Err(e) => Err(e),
                    Ok((constants, n4)) => match spec_code(bytes, pos + n1 + n2 + n3 + n4, h) {
                        Err(e) => Err(e),
                        Ok((code, n5)) => if lines.len() != 0 && lines.len() != code.len() {
                            Err(
                                fault(
                                    "line table does not match the code"@,
                                    pos + n1 + n2,
                                ),
                            )
                        } else {
                            match spec_ops(
                                h,
                                code,
                                pos + n1 + n2 + n3 + n4 + h.size_int as nat,
                                code.len(),
                            ) {
                                Err(e) => Err(e),
                                Ok(ops) => Ok(
                                    (
                                        ProtoView {
                                            code,
                                            ops,
                                            source: head.0,
                                            line_defined: head.1,
                                            num_params: head.2,
                                            is_vararg: head.3,
                                            max_stack: head.4,
                                            locals,
                                            constants,
                                            lines,
                                        },
                                        n1 + n2 + n3 + n4 + n5,
                                    ),
                                ),
                            }
                        },
                    },
                },
            },
        },
    }
}

/// The constants of a function: the strings, the numbers and the nested
/// prototypes, each as a count and that many items.
#[verifier::opaque]
pub open spec fn spec_constants(bytes: Seq<u8>, pos: nat, h: Header) -> Parsed<ConstantsView>
    decreases remaining(bytes, pos), 0nat, 1nat,
{
    match spec_counted(bytes, pos, h, string_item(h)) {
        Err(e) => Err(e),
        Ok((strings, n1)) => match spec_counted(bytes, pos + n1, h, number_item(h)) {
            Err(e) => Err(e),
            Ok((numbers, n2)) => match spec_int(bytes, pos + n1 + n2, h) {
                Err(e) => Err(e),
                Ok((count, n3)) => match spec_protos(bytes, pos + n1 + n2 + n3, h, count as nat) {
                    Err(e) => Err(e),
                    Ok((protos, n4)) => Ok(
                        (ConstantsView { strings, numbers, protos }, n1 + n2 + n3 + n4),
                    ),
                },
            },
        },
    }
}

/// `n` function prototypes in a row.
#[verifier::opaque]
pub open spec fn spec_protos(bytes: Seq<u8>, pos: nat, h: Header, n: nat) -> Parsed<Seq<ProtoView>>
    decreases remaining(bytes, pos), n, 0nat,
{
    if n == 0 {
        Ok((Seq::empty(), 0))
    } else {
        match spec_protos(bytes, pos, h, (n - 1) as nat) {
            Err(e) => Err(e),
            Ok((front, used)) => match spec_function(bytes, pos + used, h) {
                Err(e) => Err(e),
                Ok((proto, k)) => Ok((front.push(proto), used + k)),
            },
        }
    }
}

} // verus!
