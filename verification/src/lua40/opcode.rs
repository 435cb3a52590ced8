//! Instruction words: the opcode numbering, the operand fields and the
//! header that fixes their widths.
//!
//! ```text
//!       26     6
//!  __________ ____
//! |    U     | Op |
//! |    S   |s| Op |
//! |  A  | B  | Op |
//! ```
use vstd::prelude::*;
use vstd::arithmetic::power2::*;
use vstd::bits::*;
use vstd::string::StringExecFns;
use crate::errors::{Error, ErrorView};
use crate::reader::{Endian, NumberType};
use crate::text::{dec, hex2, push_dec, push_hex2};

verus! {

/// The version byte of Lua 4.0.
pub const LUA_VERSION: u8 = 0x40;

/// The opcodes of Lua 4.0, in the order of their numbers.
#[derive(Debug, Clone, Copy, PartialEq, Eq, Structural)]
pub enum Opcode {
    End,
    Return,
    Call,
    TailCall,
    PushNil,
    Pop,
    PushInt,
    PushString,
    PushNum,
    PushNegNum,
    PushValue,
    GetLocal,
    GetGlobal,
    GetTable,
    GetDotted,
    GetIndexed,
    PushSelf,
    CreateTable,
    SetLocal,
    SetGlobal,
    SetTable,
    SetList,
    SetMap,
    Add,
    AddI,
    Sub,
    Mult,
    Div,
    Pow,
    Concat,
    Minus,
    Not,
    JumpNe,
    JumpEq,
    JumpLt,
    JumpLe,
    JumpGt,
    JumpGe,
    JumpTrue,
    JumpFalse,
    JumpOnTrue,
    JumpOnFalse,
    Jump,
    PushNilJump,
    ForPrep,
    ForLoop,
    LForPrep,
    LForLoop,
    Closure,
}

/// A decoded instruction: the opcode with the operands that it uses.
#[derive(Debug, Clone, Copy, PartialEq, Eq, Structural)]
pub enum Op {
    /// End of the function.
    End,
    /// Return from the current activation frame; `results` values are left on the stack.
    Return { results: u32 },
    /// Call the function at `stack_offset` with everything above it as
    /// arguments; `results` values are left on the stack.
    Call { stack_offset: u32, results: u32 },
    /// Call a function and return its results.
    TailCall,
    /// Push `n` nils.
    PushNil { n: u32 },
    /// Remove `n` slots from the stack.
    Pop { n: u32 },
    /// Push the inlined integer.
    PushInt { signed: i32 },
    /// Push the string constant `id`.
    PushString { id: u32 },
    /// Push the number constant `id`.
    PushNum { id: u32 },
    /// Push the negated number constant `id`.
    PushNegNum { id: u32 },
    /// Push the value at `offset` of the enclosing closure.
    PushValue { offset: u32 },
    /// Copy the local variable at stack index `offset` to the top of the stack.
    GetLocal { offset: u32 },
    /// Push the global variable named by the string constant `string_id`.
    GetGlobal { string_id: u32 },
    /// Replace a table and a key by the value under the key.
    GetTable,
    /// Replace a table by its field named by the string constant `string_id`.
    GetDotted { string_id: u32 },
    /// Replace a table by its value under the local at `offset`.
    GetIndexed { offset: u32 },
    /// Push the method named by the string constant `string_id`, above its table.
    PushSelf { string_id: u32 },
    /// Push a new table with room for `size` items.
    CreateTable { size: u32 },
    /// Move the top of the stack into the local variable at stack index `offset`.
    SetLocal { offset: u32 },
    /// Move the top of the stack into the global variable named by the string constant `string_id`.
    SetGlobal { string_id: u32 },
    /// Store into a table that lies `a` slots deep, then remove `b` slots.
    SetTable { a: u32, b: u32 },
    /// Store the top `b` values into the list part of a table, in batch `a`.
    SetList { a: u32, b: u32 },
    /// Store the top `n` pairs into a table.
    SetMap { n: u32 },
    Add,
    /// Add the inlined integer to the top of the stack.
    AddI { signed: i32 },
    Sub,
    Mult,
    Div,
    Pow,
    /// Concatenate the top `n` values.
    Concat { n: u32 },
    Minus,
    Not,
    JumpNe { rel: i32 },
    JumpEq { rel: i32 },
    JumpLt { rel: i32 },
    JumpLe { rel: i32 },
    JumpGt { rel: i32 },
    JumpGe { rel: i32 },
    JumpTrue { rel: i32 },
    JumpFalse { rel: i32 },
    JumpOnTrue { rel: i32 },
    JumpOnFalse { rel: i32 },
    Jump { rel: i32 },
    /// Push nil and skip one instruction.
    PushNilJump,
    ForPrep { rel: i32 },
    ForLoop { rel: i32 },
    LForPrep { rel: i32 },
    LForLoop { rel: i32 },
    /// Push a closure of the nested prototype `proto_id` over the top `n` values.
    Closure { proto_id: u32, n: u32 },
}

impl Opcode {
    /// The number that stands for this opcode in an instruction word.
    pub open spec fn code(self) -> nat {
        match self {
            Opcode::End => 0,
            Opcode::Return => 1,
            Opcode::Call => 2,
            Opcode::TailCall => 3,
            Opcode::PushNil => 4,
            Opcode::Pop => 5,
            Opcode::PushInt => 6,
            Opcode::PushString => 7,
            Opcode::PushNum => 8,
            Opcode::PushNegNum => 9,
            Opcode::PushValue => 10,
            Opcode::GetLocal => 11,
            Opcode::GetGlobal => 12,
            Opcode::GetTable => 13,
            Opcode::GetDotted => 14,
            Opcode::GetIndexed => 15,
            Opcode::PushSelf => 16,
            Opcode::CreateTable => 17,
            Opcode::SetLocal => 18,
            Opcode::SetGlobal => 19,
            Opcode::SetTable => 20,
            Opcode::SetList => 21,
            Opcode::SetMap => 22,
            Opcode::Add => 23,
            Opcode::AddI => 24,
            Opcode::Sub => 25,
            Opcode::Mult => 26,
            Opcode::Div => 27,
            Opcode::Pow => 28,
            Opcode::Concat => 29,
            Opcode::Minus => 30,
            Opcode::Not => 31,
            Opcode::JumpNe => 32,
            Opcode::JumpEq => 33,
            Opcode::JumpLt => 34,
            Opcode::JumpLe => 35,
            Opcode::JumpGt => 36,
            Opcode::JumpGe => 37,
            Opcode::JumpTrue => 38,
            Opcode::JumpFalse => 39,
            Opcode::JumpOnTrue => 40,
            Opcode::JumpOnFalse => 41,
            Opcode::Jump => 42,
            Opcode::PushNilJump => 43,
            Opcode::ForPrep => 44,
            Opcode::ForLoop => 45,
            Opcode::LForPrep => 46,
            Opcode::LForLoop => 47,
            Opcode::Closure => 48,
        }
    }

    /// The opcode that `value` stands for.
    ///
    /// Fails exactly on the values above that of `Closure`.
    pub fn try_from(value: u32) -> (r: Result<Opcode, Error>)
        ensures
            value <= 48 ==> r is Ok && r->Ok_0.code() == value,
            value > 48 ==> r is Err && r->Err_0@ == unknown_opcode(value),
    {
        Ok(
            match value {
                0 => Opcode::End,
                1 => Opcode::Return,
                2 => Opcode::Call,
                3 => Opcode::TailCall,
                4 => Opcode::PushNil,
                5 => Opcode::Pop,
                6 => Opcode::PushInt,
                7 => Opcode::PushString,
                8 => Opcode::PushNum,
                9 => Opcode::PushNegNum,
                10 => Opcode::PushValue,
                11 => Opcode::GetLocal,
                12 => Opcode::GetGlobal,
                13 => Opcode::GetTable,
                14 => Opcode::GetDotted,
                15 => Opcode::GetIndexed,
                16 => Opcode::PushSelf,
                17 => Opcode::CreateTable,
                18 => Opcode::SetLocal,
                19 => Opcode::SetGlobal,
                20 => Opcode::SetTable,
                21 => Opcode::SetList,
                22 => Opcode::SetMap,
                23 => Opcode::Add,
                24 => Opcode::AddI,
                25 => Opcode::Sub,
                26 => Opcode::Mult,
                27 => Opcode::Div,
                28 => Opcode::Pow,
                29 => Opcode::Concat,
                30 => Opcode::Minus,
                31 => Opcode::Not,
                32 => Opcode::JumpNe,
                33 => Opcode::JumpEq,
                34 => Opcode::JumpLt,
                35 => Opcode::JumpLe,
                36 => Opcode::JumpGt,
                37 => Opcode::JumpGe,
                38 => Opcode::JumpTrue,
                39 => Opcode::JumpFalse,
                40 => Opcode::JumpOnTrue,
                41 => Opcode::JumpOnFalse,
                42 => Opcode::Jump,
                43 => Opcode::PushNilJump,
                44 => Opcode::ForPrep,
                45 => Opcode::ForLoop,
                46 => Opcode::LForPrep,
                47 => Opcode::LForLoop,
                48 => Opcode::Closure,
                _ => {
                    let mut message = String::from_str("unknown opcode: ");
                    push_dec(&mut message, value as u64);
                    return Err(Error::new_decoder(message.as_str()));
                },
            },
        )
    }
}

/// The opcode whose number is `n`.
pub open spec fn opcode_numbered(n: nat) -> Opcode {
    choose|opcode: Opcode| opcode.code() == n
}

impl Op {
    /// The signed operand of the instruction, if it has one.
    pub open spec fn signed_operand(self) -> Option<i32> {
        match self {
            Op::PushInt { signed } => Some(signed),
            Op::AddI { signed } => Some(signed),
            Op::JumpNe { rel } => Some(rel),
            Op::JumpEq { rel } => Some(rel),
            Op::JumpLt { rel } => Some(rel),
            Op::JumpLe { rel } => Some(rel),
            Op::JumpGt { rel } => Some(rel),
            Op::JumpGe { rel } => Some(rel),
            Op::JumpTrue { rel } => Some(rel),
            Op::JumpFalse { rel } => Some(rel),
            Op::JumpOnTrue { rel } => Some(rel),
            Op::JumpOnFalse { rel } => Some(rel),
            Op::Jump { rel } => Some(rel),
            Op::ForPrep { rel } => Some(rel),
            Op::ForLoop { rel } => Some(rel),
            Op::LForPrep { rel } => Some(rel),
            Op::LForLoop { rel } => Some(rel),
            _ => None,
        }
    }
}

/// The error for an instruction word whose opcode field holds `value`.
pub open spec fn unknown_opcode(value: u32) -> ErrorView {
    ErrorView::Decoder("unknown opcode: "@ + dec(value as nat))
}

/// The instruction with the given opcode, taking from the four operand
/// fields of its word those that the opcode uses.
pub open spec fn assemble(opcode: Opcode, u: u32, s: i32, a: u32, b: u32) -> Op {
    match opcode {
        Opcode::End => Op::End,
        Opcode::Return => Op::Return { results: u },
        Opcode::Call => Op::Call { stack_offset: a, results: b },
        Opcode::TailCall => Op::TailCall,
        Opcode::PushNil => Op::PushNil { n: u },
        Opcode::Pop => Op::Pop { n: u },
        Opcode::PushInt => Op::PushInt { signed: s },
        Opcode::PushString => Op::PushString { id: u },
        Opcode::PushNum => Op::PushNum { id: u },
        Opcode::PushNegNum => Op::PushNegNum { id: u },
        Opcode::PushValue => Op::PushValue { offset: u },
        Opcode::GetLocal => Op::GetLocal { offset: u },
        Opcode::GetGlobal => Op::GetGlobal { string_id: u },
        Opcode::GetTable => Op::GetTable,
        Opcode::GetDotted => Op::GetDotted { string_id: u },
        Opcode::GetIndexed => Op::GetIndexed { offset: u },
        Opcode::PushSelf => Op::PushSelf { string_id: u },
        Opcode::CreateTable => Op::CreateTable { size: u },
        Opcode::SetLocal => Op::SetLocal { offset: u },
        Opcode::SetGlobal => Op::SetGlobal { string_id: u },
        Opcode::SetTable => Op::SetTable { a: a, b: b },
        Opcode::SetList => Op::SetList { a: a, b: b },
        Opcode::SetMap => Op::SetMap { n: u },
        Opcode::Add => Op::Add,
        Opcode::AddI => Op::AddI { signed: s },
        Opcode::Sub => Op::Sub,
        Opcode::Mult => Op::Mult,
        Opcode::Div => Op::Div,
        Opcode::Pow => Op::Pow,
        Opcode::Concat => Op::Concat { n: u },
        Opcode::Minus => Op::Minus,
        Opcode::Not => Op::Not,
        Opcode::JumpNe => Op::JumpNe { rel: s },
        Opcode::JumpEq => Op::JumpEq { rel: s },
        Opcode::JumpLt => Op::JumpLt { rel: s },
        Opcode::JumpLe => Op::JumpLe { rel: s },
        Opcode::JumpGt => Op::JumpGt { rel: s },
        Opcode::JumpGe => Op::JumpGe { rel: s },
        Opcode::JumpTrue => Op::JumpTrue { rel: s },
        Opcode::JumpFalse => Op::JumpFalse { rel: s },
        Opcode::JumpOnTrue => Op::JumpOnTrue { rel: s },
        Opcode::JumpOnFalse => Op::JumpOnFalse { rel: s },
        Opcode::Jump => Op::Jump { rel: s },
        Opcode::PushNilJump => Op::PushNilJump,
        Opcode::ForPrep => Op::ForPrep { rel: s },
        Opcode::ForLoop => Op::ForLoop { rel: s },
        Opcode::LForPrep => Op::LForPrep { rel: s },
        Opcode::LForLoop => Op::LForLoop { rel: s },
        Opcode::Closure => Op::Closure { proto_id: a, n: b },
    }
}

/// Executable form of [`assemble`].
pub fn assemble_op(opcode: Opcode, u: u32, s: i32, a: u32, b: u32) -> (op: Op)
    ensures
        op == assemble(opcode, u, s, a, b),
{
    match opcode {
        Opcode::End => Op::End,
        Opcode::Return => Op::Return { results: u },
        Opcode::Call => Op::Call { stack_offset: a, results: b },
        Opcode::TailCall => Op::TailCall,
        Opcode::PushNil => Op::PushNil { n: u },
        Opcode::Pop => Op::Pop { n: u },
        Opcode::PushInt => Op::PushInt { signed: s },
        Opcode::PushString => Op::PushString { id: u },
        Opcode::PushNum => Op::PushNum { id: u },
        Opcode::PushNegNum => Op::PushNegNum { id: u },
        Opcode::PushValue => Op::PushValue { offset: u },
        Opcode::GetLocal => Op::GetLocal { offset: u },
        Opcode::GetGlobal => Op::GetGlobal { string_id: u },
        Opcode::GetTable => Op::GetTable,
        Opcode::GetDotted => Op::GetDotted { string_id: u },
        Opcode::GetIndexed => Op::GetIndexed { offset: u },
        Opcode::PushSelf => Op::PushSelf { string_id: u },
        Opcode::CreateTable => Op::CreateTable { size: u },
        Opcode::SetLocal => Op::SetLocal { offset: u },
        Opcode::SetGlobal => Op::SetGlobal { string_id: u },
        Opcode::SetTable => Op::SetTable { a: a, b: b },
        Opcode::SetList => Op::SetList { a: a, b: b },
        Opcode::SetMap => Op::SetMap { n: u },
        Opcode::Add => Op::Add,
        Opcode::AddI => Op::AddI { signed: s },
        Opcode::Sub => Op::Sub,
        Opcode::Mult => Op::Mult,
        Opcode::Div => Op::Div,
        Opcode::Pow => Op::Pow,
        Opcode::Concat => Op::Concat { n: u },
        Opcode::Minus => Op::Minus,
        Opcode::Not => Op::Not,
        Opcode::JumpNe => Op::JumpNe { rel: s },
        Opcode::JumpEq => Op::JumpEq { rel: s },
        Opcode::JumpLt => Op::JumpLt { rel: s },
        Opcode::JumpLe => Op::JumpLe { rel: s },
        Opcode::JumpGt => Op::JumpGt { rel: s },
        Opcode::JumpGe => Op::JumpGe { rel: s },
        Opcode::JumpTrue => Op::JumpTrue { rel: s },
        Opcode::JumpFalse => Op::JumpFalse { rel: s },
        Opcode::JumpOnTrue => Op::JumpOnTrue { rel: s },
        Opcode::JumpOnFalse => Op::JumpOnFalse { rel: s },
        Opcode::Jump => Op::Jump { rel: s },
        Opcode::PushNilJump => Op::PushNilJump,
        Opcode::ForPrep => Op::ForPrep { rel: s },
        Opcode::ForLoop => Op::ForLoop { rel: s },
        Opcode::LForPrep => Op::LForPrep { rel: s },
        Opcode::LForLoop => Op::LForLoop { rel: s },
        Opcode::Closure => Op::Closure { proto_id: a, n: b },
    }
}

/// The layout that a chunk's header announces.
#[derive(Debug, Clone, Copy)]
pub struct Header {
    pub version: u8,
    pub endianess: Endian,
    /// Bytes in an `int`.
    pub size_int: u8,
    /// Bytes in a `size_t`.
    pub size_t: u8,
    /// Bytes in an instruction word.
    pub size_instr: u8,
    /// Bits in an instruction word.
    pub size_instr_arg: u8,
    /// Bits in the opcode field.
    pub size_op: u8,
    /// Bits in the operand field `B`.
    pub size_b: u8,
    pub number_type: NumberType,
}

impl Header {
    /// The layouts whose instruction words this library can take apart: a
    /// word of four bytes and thirty-two bits, with a non-empty opcode field
    /// that leaves at least one bit above the field `B`.
    pub open spec fn supported(self) -> bool {
        &&& self.size_instr == 4
        &&& self.size_instr_arg == 32
        &&& 1 <= self.size_op
        &&& self.size_op + self.size_b < 32
    }

    /// Bits in the operand fields `U` and `S`.
    pub open spec fn u_bits(self) -> int {
        self.size_instr_arg - self.size_op
    }

    /// Bits in the operand field `A`.
    pub open spec fn a_bits(self) -> int {
        self.size_instr_arg - self.size_op - self.size_b
    }

    /// The bias of the signed field: zero is stored as this value.
    pub open spec fn bias(self) -> int {
        pow2((self.u_bits() - 1) as nat) - 1
    }

    /// The opcode field of `word`: its lowest bits.
    pub open spec fn opcode_field(self, word: u32) -> nat {
        word as nat % pow2(self.size_op as nat)
    }

    /// The field `U` of `word`: everything above the opcode.
    pub open spec fn arg_u(self, word: u32) -> nat {
        word as nat / pow2(self.size_op as nat)
    }

    /// The field `S` of `word`: `U` less the bias.
    pub open spec fn arg_s(self, word: u32) -> int {
        self.arg_u(word) - self.bias()
    }

    /// The field `A` of `word`: everything above `B`.
    pub open spec fn arg_a(self, word: u32) -> nat {
        word as nat / pow2((self.size_op + self.size_b) as nat)
    }

    /// The field `B` of `word`: the bits just above the opcode.
    pub open spec fn arg_b(self, word: u32) -> nat {
        (word as nat / pow2(self.size_op as nat)) % pow2(self.size_b as nat)
    }

    /// What `word` decodes to: the instruction of its opcode field over its
    /// operand fields, or the error for an opcode field that names none.
    pub open spec fn decoded(self, word: u32) -> Result<Op, ErrorView> {
        if self.opcode_field(word) <= 48 {
            Ok(
                assemble(
                    opcode_numbered(self.opcode_field(word)),
                    self.arg_u(word) as u32,
                    self.arg_s(word) as i32,
                    self.arg_a(word) as u32,
                    self.arg_b(word) as u32,
                ),
            )
        } else {
            Err(unknown_opcode(self.opcode_field(word) as u32))
        }
    }

    /// Whether the layout is one of the [`supported`](Self::supported) ones.
    pub fn is_supported(&self) -> (b: bool)
        ensures
            b == self.supported(),
    {
        self.size_instr == 4 && self.size_instr_arg == 32 && 1 <= self.size_op
            && self.size_op as u32 + (self.size_b as u32) < 32
    }

    /// Size of instruction argument `U` (unsigned int).
    pub fn size_u(&self) -> (n: u32)
        requires
            self.supported(),
        ensures
            n == self.u_bits(),
    {
        self.size_instr_arg as u32 - self.size_op as u32
    }

    /// Max value of instruction argument `U` (unsigned int).
    pub fn max_arg_u(&self) -> (m: u32)
        requires
            self.supported(),
        ensures
            m == pow2(self.u_bits() as nat) - 1,
    {
        let bits: u32 = self.size_u();
        proof {
            lemma_u32_pow2_no_overflow(bits as nat);
            lemma_u32_shl_is_mul(1, bits);
        }
        (1u32 << bits) - 1
    }

    /// Max value of instruction argument `S` (signed int).
    pub fn max_arg_s(&self) -> (m: i32)
        requires
            self.supported(),
        ensures
            m == self.bias(),
    {
        // 1 bit taken up by sign.
        let max_u: u32 = self.max_arg_u();
        proof {
            let bits = self.u_bits() as nat;
            lemma_pow2_unfold(bits);
            lemma_u32_shr_is_div(max_u, 1);
            lemma2_to64();
            lemma_pow2_pos((bits - 1) as nat);
        }
        (max_u >> 1) as i32
    }

    /// Position of instruction argument `A`.
    pub fn pos_arg_a(&self) -> (n: u32)
        ensures
            n == self.size_op + self.size_b,
    {
        self.size_op as u32 + self.size_b as u32
    }

    /// Position of instruction argument `B`.
    pub fn pos_arg_b(&self) -> (n: u32)
        ensures
            n == self.size_op,
    {
        self.size_op as u32
    }

    /// Size of instruction argument `A`.
    pub fn size_a(&self) -> (n: u32)
        requires
            self.supported(),
        ensures
            n == self.a_bits(),
    {
        self.size_instr_arg as u32 - (self.size_op as u32 + self.size_b as u32)
    }

    /// Max value of instruction argument `A`.
    pub fn max_arg_a(&self) -> (m: u32)
        requires
            self.supported(),
        ensures
            m == pow2(self.a_bits() as nat) - 1,
    {
        let bits: u32 = self.size_a();
        proof {
            lemma_u32_pow2_no_overflow(bits as nat);
            lemma_u32_shl_is_mul(1, bits);
        }
        (1u32 << bits) - 1
    }

    /// Max value of instruction argument `B`.
    pub fn max_arg_b(&self) -> (m: u32)
        requires
            self.supported(),
        ensures
            m == pow2(self.size_b as nat) - 1,
    {
        let bits: u32 = self.size_b as u32;
        proof {
            lemma_u32_pow2_no_overflow(bits as nat);
            lemma_u32_shl_is_mul(1, bits);
        }
        (1u32 << bits) - 1
    }

    /// Takes an instruction word apart.
    pub fn decode_op(&self, word: u32) -> (r: Result<Op, Error>)
        requires
            self.supported(),
        ensures
            match self.decoded(word) {
                Ok(op) => r == Ok::<Op, Error>(op),
                Err(e) => r is Err && r->Err_0@ == e,
            },
    {
        let size_op: u32 = self.size_op as u32;
        let mask: u32 = { 
            proof {
                lemma_u32_pow2_no_overflow(size_op as nat);
                lemma_u32_shl_is_mul(1, size_op);
            }
            (1u32 << size_op) - 1
        };
        let field: u32 = word & mask;
        let arg_u: u32 = word >> size_op;
        proof {
            lemma_u32_low_bits_mask_is_mod(word, size_op as nat);
            lemma_u32_shr_is_div(word, size_op);
            self.lemma_field_ranges(word);
        }
        let opcode = match Opcode::try_from(field) {
            Ok(opcode) => opcode,
            Err(e) => {
                return Err(e);
            },
        };
        let arg_s: i32 = arg_u as i32 - self.max_arg_s();
        let arg_a: u32 = word >> self.pos_arg_a();
        let arg_b: u32 = (word >> self.pos_arg_b()) & self.max_arg_b();
        proof {
            lemma_u32_shr_is_div(word, (self.size_op + self.size_b) as u32);
            lemma_u32_low_bits_mask_is_mod(arg_u, self.size_b as nat);
            lemma_u32_pow2_no_overflow(self.size_b as nat);
        }
        Ok(assemble_op(opcode, arg_u, arg_s, arg_a, arg_b))
    }

    /// Under a supported layout every field of a word fits the type that
    /// holds it, and the signed field lies within one step of the range of a
    /// two's complement number of as many bits.
    pub proof fn lemma_field_ranges(self, word: u32)
        requires
            self.supported(),
        ensures
            self.arg_u(word) < pow2(self.u_bits() as nat) <= 0x8000_0000,
            self.arg_a(word) <= u32::MAX,
            self.arg_b(word) < pow2(self.size_b as nat),
            -pow2((self.u_bits() - 1) as nat) < self.arg_s(word) <= pow2((self.u_bits() - 1) as nat),
            -0x4000_0000 < self.arg_s(word) <= 0x4000_0000,
    {
        let o = self.size_op as nat;
        let b = self.size_b as nat;
        let ub = self.u_bits() as nat;
        lemma2_to64();
        lemma_pow2_pos(o);
        lemma_pow2_pos(b);
        lemma_pow2_pos(o + b);
        lemma_pow2_pos((ub - 1) as nat);
        lemma_pow2_adds(o, ub);
        lemma_pow2_unfold(ub);
        assert(pow2(32) == 0x1_0000_0000);
        // word < 2^o * 2^ub  ==>  word / 2^o < 2^ub
        assert(self.arg_u(word) < pow2(ub)) by (nonlinear_arith)
            requires
                self.arg_u(word) == word as nat / pow2(o),
                (word as nat) < pow2(o) * pow2(ub),
                pow2(o) > 0,
        ;
        if ub < 31 {
            lemma_pow2_strictly_increases(ub, 31);
        }
        assert(pow2(31) == 0x8000_0000);
        if ub - 1 < 30 {
            lemma_pow2_strictly_increases((ub - 1) as nat, 30);
        }
        assert(pow2(30) == 0x4000_0000);
        assert(self.arg_a(word) <= word) by (nonlinear_arith)
            requires
                self.arg_a(word) == word as nat / pow2(o + b),
                pow2(o + b) > 0,
        ;
        assert(self.arg_b(word) < pow2(b)) by (nonlinear_arith)
            requires
                self.arg_b(word) == (word as nat / pow2(o)) % pow2(b),
                pow2(b) > 0,
        ;
    }

    /// The signed operand of a decoded instruction is the signed field of
    /// its word. It lies in the range of a two's complement number of as
    /// many bits as the field has, unless the word's field `U` is all ones:
    /// then it is the first number above that range.
    pub proof fn lemma_signed_operand_range(self, word: u32)
        requires
            self.supported(),
        ensures
            match self.decoded(word) {
                Ok(op) => match op.signed_operand() {
                    Some(signed) => {
                        &&& signed == self.arg_s(word)
                        &&& -pow2((self.u_bits() - 1) as nat) < signed <= pow2(
                            (self.u_bits() - 1) as nat,
                        )
                        &&& self.arg_u(word) != pow2(self.u_bits() as nat) - 1 ==> signed < pow2(
                            (self.u_bits() - 1) as nat,
                        )
                    },
                    None => true,
                },
                Err(_) => true,
            },
    {
        self.lemma_field_ranges(word);
        lemma_pow2_unfold(self.u_bits() as nat);
    }

    /// The signed field of a word lies in the range of a two's complement
    /// number of as many bits, unless the word's field `U` is all ones.
    pub proof fn lemma_signed_field_range(self, word: u32)
        requires
            self.supported(),
            self.arg_u(word) != pow2(self.u_bits() as nat) - 1,
        ensures
            -pow2((self.u_bits() - 1) as nat) <= self.arg_s(word) < pow2((self.u_bits() - 1) as nat),
    {
        self.lemma_field_ranges(word);
        lemma_pow2_unfold(self.u_bits() as nat);
    }
}

/// The name of a byte order.
pub open spec fn endian_name(endian: Endian) -> Seq<char> {
    match endian {
        Endian::Little => "Little"@,
        Endian::Big => "Big"@,
    }
}

/// The name of a number format.
pub open spec fn number_type_name(number_type: NumberType) -> Seq<char> {
    match number_type {
        NumberType::F32 => "F32"@,
        NumberType::F64 => "F64"@,
    }
}

impl Header {
    /// The header before a chunk has been read: the version of Lua 4.0,
    /// little-endian numbers of eight bytes, and every size zero.
    pub open spec fn initial() -> Header {
        Header {
            version: LUA_VERSION,
            endianess: Endian::Little,
            size_int: 0,
            size_t: 0,
            size_instr: 0,
            size_instr_arg: 0,
            size_op: 0,
            size_b: 0,
            number_type: NumberType::F64,
        }
    }

    /// One line that names every field of the header.
    pub open spec fn text(self) -> Seq<char> {
        "version: "@ + hex2(self.version) + ", endianess: "@ + endian_name(self.endianess)
            + "; int: "@ + dec(self.size_int as nat) + "B; size_t: "@ + dec(self.size_t as nat)
            + "B; instruction: "@ + dec(self.size_instr as nat) + "B; args: "@ + dec(
            self.size_instr_arg as nat,
        ) + "bits; opcode: "@ + dec(self.size_op as nat) + "bits; B: "@ + dec(self.size_b as nat)
            + "bits; Number: "@ + number_type_name(self.number_type)
    }

    /// One line that names every field of the header.
    pub fn describe(&self) -> (s: String)
        ensures
            s@ == self.text(),
    {
        let mut s = String::from_str("version: ");
        push_hex2(&mut s, self.version);
        s.append(", endianess: ");
        s.append(
            match self.endianess {
                Endian::Little => "Little",
                Endian::Big => "Big",
            },
        );
        s.append("; int: ");
        push_dec(&mut s, self.size_int as u64);
        s.append("B; size_t: ");
        push_dec(&mut s, self.size_t as u64);
        s.append("B; instruction: ");
        push_dec(&mut s, self.size_instr as u64);
        s.append("B; args: ");
        push_dec(&mut s, self.size_instr_arg as u64);
        s.append("bits; opcode: ");
        push_dec(&mut s, self.size_op as u64);
        s.append("bits; B: ");
        push_dec(&mut s, self.size_b as u64);
        s.append("bits; Number: ");
        s.append(
            match self.number_type {
                NumberType::F32 => "F32",
                NumberType::F64 => "F64",
            },
        );
        assert(s@ =~= self.text());
        s
    }
}

impl Default for Header {
    fn default() -> (h: Header)
        ensures
            h == Header::initial(),
    {
        Header {
            version: LUA_VERSION,
            endianess: Endian::Little,
            size_int: 0,
            size_t: 0,
            size_instr: 0,
            size_instr_arg: 0,
            size_op: 0,
            size_b: 0,
            number_type: NumberType::F64,
        }
    }
}

} // verus!
