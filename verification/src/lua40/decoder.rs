//! Lua 4.0 bytecode chunk decoder.
use vstd::prelude::*;
use vstd::arithmetic::power2::*;
use vstd::string::StringExecFns;
use vstd::utf8::*;
use byteorder::ReadBytesExt;
use crate::errors::{Error, ErrorView};
use crate::lua40::format::{
    be_value, fault, int_item, le_value, local_item, number_item, remaining, spec_bytemark,
    spec_bytes, spec_chunk, spec_code, spec_constants, spec_counted, spec_endianess, spec_function,
    spec_function_head, spec_header, spec_int, spec_lines, spec_list, spec_local, spec_locals,
    spec_number, spec_ops, spec_protos, spec_signature, spec_size_t, spec_sizes, spec_string,
    spec_test_number, spec_u16, spec_u32, spec_u64, spec_u8, spec_uint, spec_version, string_item,
    uint_value, word_item, Parsed, ID_CHUNK, TEST_NUMBER_BITS, TEST_NUMBER_BITS_SINGLE,
};
use crate::lua40::number::Number;
use crate::lua40::opcode::{Header, Op, LUA_VERSION};
use crate::lua40::proto::{locals_view, protos_view, strings_view, Constants, Local, Proto};
use crate::reader::{Endian, NumberType};

verus! {

/// Lua 4.0 bytecode chunk decoder.
pub struct Decoder<'a> {
    /// The bytes of the chunk.
    pub code: &'a [u8],
    /// How many of them have been read.
    pub cursor: usize,
    /// The layout in force; `decode` sets it from the chunk's header.
    pub header: Header,
}

/// Reads the byte at `pos` with `byteorder::ReadBytesExt::read_u8`, applied
/// to the bytes from `pos` on as a reader. That function hands out the first
/// byte of its reader, and fails when the reader is at its end.
#[verifier::external_body]
fn next_byte(code: &[u8], pos: usize) -> (r: Option<u8>)
    requires
        pos <= code@.len(),
    ensures
        r == if pos < code@.len() {
            Some(code@[pos as int])
        } else {
            None::<u8>
        },
{
    let mut rest: &[u8] = &code[pos..];
    rest.read_u8().ok()
}

/// Turns bytes into a string with `String::from_utf8` of the standard
/// library, which succeeds exactly on well-formed UTF-8 and then yields the
/// characters that the bytes encode.
#[verifier::external_body]
fn string_from_utf8(bytes: Vec<u8>) -> (r: Option<String>)
    ensures
        r is Some <==> valid_utf8(bytes@),
        r is Some ==> r->0@ == decode_utf8(bytes@),
{
    String::from_utf8(bytes).ok()
}

/// The decoder error with the given reason at the given byte offset.
pub fn fault_at(reason: &str, offset: usize) -> (e: Error)
    ensures
        e@ == fault(reason@, offset as nat),
{
    Error::new_decoder(reason).at_byte(offset)
}

/// What bytes stand for is below two to the power of the number of their
/// bits.
pub proof fn lemma_uint_value_bound(s: Seq<u8>, endian: Endian)
    ensures
        uint_value(s, endian) < pow2(8 * s.len()),
    decreases s.len(),
{
    lemma2_to64();
    if s.len() == 0 {
    } else {
        lemma_pow2_adds(8 * (s.len() - 1) as nat, 8);
        match endian {
            Endian::Little => {
                lemma_uint_value_bound(s.drop_first(), endian);
            },
            Endian::Big => {
                lemma_uint_value_bound(s.drop_last(), endian);
            },
        }
    }
}

/// The number that at most eight bytes stand for in the given byte order.
pub fn uint_of(buf: &Vec<u8>, endian: Endian) -> (v: u64)
    requires
        buf.len() <= 8,
    ensures
        v == uint_value(buf@, endian),
        v < pow2(8 * buf@.len()),
{
    let n: usize = buf.len();
    let mut acc: u64 = 0;
    proof {
        lemma2_to64();
        lemma_uint_value_bound(buf@, endian);
    }
    match endian {
        Endian::Little => {
            let mut i: usize = n;
            while i > 0
                invariant
                    n == buf.len(),
                    n <= 8,
                    i <= n,
                    acc == le_value(buf@.subrange(i as int, n as int)),
                    acc < pow2(8 * (n - i) as nat),
                decreases i,
            {
                i = i - 1;
                proof {
                    let tail = buf@.subrange(i as int, n as int);
                    assert(tail.drop_first() =~= buf@.subrange(i + 1, n as int));
                    lemma_uint_value_bound(tail, Endian::Little);
                    lemma_pow2_adds(8 * (n - i - 1) as nat, 8);
                    lemma2_to64();
                    if n - i < 8 {
                        lemma_pow2_strictly_increases(8 * (n - i) as nat, 64);
                    }
                    lemma2_to64_rest();
                }
                acc = buf[i] as u64 + 256 * acc;
            }
            assert(buf@.subrange(0, n as int) =~= buf@);
        },
        Endian::Big => {
            let mut i: usize = 0;
            while i < n
                invariant
                    n == buf.len(),
                    n <= 8,
                    i <= n,
                    acc == be_value(buf@.subrange(0, i as int)),
                    acc < pow2(8 * i as nat),
                decreases n - i,
            {
                proof {
                    let head = buf@.subrange(0, i + 1);
                    assert(head.drop_last() =~= buf@.subrange(0, i as int));
                    lemma_uint_value_bound(head, Endian::Big);
                    lemma_pow2_adds(8 * i as nat, 8);
                    lemma2_to64();
                    if i + 1 < 8 {
                        lemma_pow2_strictly_increases(8 * (i + 1) as nat, 64);
                    }
                    lemma2_to64_rest();
                }
                acc = 256 * acc + buf[i] as u64;
                i = i + 1;
            }
            assert(buf@.subrange(0, n as int) =~= buf@);
        },
    }
    acc
}

impl<'a> Decoder<'a> {
    /// What a read owes: the bytes and the header stay as they are; where
    /// the format gives a value, the read returns it and the cursor moves
    /// past it; where the format gives an error, the read fails with it.
    pub open spec fn reads<T>(
        before: Self,
        after: Self,
        r: Result<T, Error>,
        expected: Parsed<T>,
    ) -> bool {
        &&& after.code@ == before.code@
        &&& after.header == before.header
        &&& match expected {
            Ok((v, used)) => r == Ok::<T, Error>(v) && after.cursor == before.cursor + used,
            Err(e) => r is Err && r->Err_0@ == e,
        }
    }

    /// As [`reads`](Self::reads), for a value that is compared through its
    /// view.
    pub open spec fn reads_view<T: View>(
        before: Self,
        after: Self,
        r: Result<T, Error>,
        expected: Parsed<T::V>,
    ) -> bool {
        &&& after.code@ == before.code@
        &&& after.header == before.header
        &&& match expected {
            Ok((v, used)) => r is Ok && r->Ok_0@ == v && after.cursor == before.cursor + used,
            Err(e) => r is Err && r->Err_0@ == e,
        }
    }

    /// An unsigned integer of `width` bytes at the cursor is below two to
    /// the power of its bits.
    pub proof fn lemma_uint_fits(self, width: nat)
        ensures
            match spec_uint(self.code@, self.cursor as nat, width, self.header.endianess) {
                Ok((v, n)) => v < pow2(8 * width) && n == width,
                Err(_) => true,
            },
    {
        if self.cursor + width <= self.code@.len() {
            lemma_uint_value_bound(
                self.code@.subrange(self.cursor as int, self.cursor + width),
                self.header.endianess,
            );
        }
    }

    /// A decoder at the start of `code`.
    pub fn new(code: &'a [u8]) -> (decoder: Self)
        ensures
            decoder.code@ == code@,
            decoder.cursor == 0,
            decoder.header == Header::initial(),
    {
        Self { code, cursor: 0, header: Header::default() }
    }

    /// Reads one byte.
    pub fn read_u8(&mut self) -> (r: Result<u8, Error>)
        ensures
            Self::reads(*old(self), *final(self), r, spec_u8(old(self).code@, old(self).cursor as nat)),
            r is Err ==> final(self).cursor == old(self).cursor,
    {
        if self.cursor > self.code.len() {
            return Err(fault_at("unexpected end of chunk", self.cursor));
        }
        match next_byte(self.code, self.cursor) {
            Some(byte) => {
                self.cursor = self.cursor + 1;
                Ok(byte)
            },
            None => Err(fault_at("unexpected end of chunk", self.cursor)),
        }
    }

    /// Reads the next `n` bytes.
    pub fn read_exact(&mut self, n: usize) -> (r: Result<Vec<u8>, Error>)
        ensures
            Self::reads_view(
                *old(self),
                *final(self),
                r,
                spec_bytes(old(self).code@, old(self).cursor as nat, n as nat),
            ),
            r is Err ==> final(self).cursor == old(self).cursor,
    {
        if self.cursor > self.code.len() || self.code.len() - self.cursor < n {
            return Err(fault_at("unexpected end of chunk", self.cursor));
        }
        let mut buf: Vec<u8> = Vec::new();
        let mut i: usize = 0;
        while i < n
            invariant
                i <= n,
                self.cursor + n <= self.code@.len() <= usize::MAX,
                buf@ == self.code@.subrange(self.cursor as int, self.cursor + i),
            decreases n - i,
        {
            buf.push(self.code[self.cursor + i]);
            i = i + 1;
            assert(buf@ =~= self.code@.subrange(self.cursor as int, self.cursor + i));
        }
        self.cursor = self.cursor + n;
        Ok(buf)
    }

    /// Reads an unsigned integer of two bytes in the byte order in force.
    pub fn read_u16(&mut self) -> (r: Result<u16, Error>)
        ensures
            Self::reads(
                *old(self),
                *final(self),
                r,
                spec_u16(old(self).code@, old(self).cursor as nat, old(self).header.endianess),
            ),
            r is Err ==> final(self).cursor == old(self).cursor,
    {
        match self.read_exact(2) {
            Err(e) => Err(e),
            Ok(buf) => {
                proof {
                    lemma2_to64();
                }
                Ok(uint_of(&buf, self.header.endianess) as u16)
            },
        }
    }

    /// Reads an unsigned integer of four bytes in the byte order in force.
    pub fn read_u32(&mut self) -> (r: Result<u32, Error>)
        ensures
            Self::reads(
                *old(self),
                *final(self),
                r,
                spec_u32(old(self).code@, old(self).cursor as nat, old(self).header.endianess),
            ),
            r is Err ==> final(self).cursor == old(self).cursor,
    {
        match self.read_exact(4) {
            Err(e) => Err(e),
            Ok(buf) => {
                proof {
                    lemma2_to64();
                }
                Ok(uint_of(&buf, self.header.endianess) as u32)
            },
        }
    }

    /// Reads an unsigned integer of eight bytes in the byte order in force.
    pub fn read_u64(&mut self) -> (r: Result<u64, Error>)
        ensures
            Self::reads(
                *old(self),
                *final(self),
                r,
                spec_u64(old(self).code@, old(self).cursor as nat, old(self).header.endianess),
            ),
            r is Err ==> final(self).cursor == old(self).cursor,
    {
        match self.read_exact(8) {
            Err(e) => Err(e),
            Ok(buf) => Ok(uint_of(&buf, self.header.endianess)),
        }
    }

    /// Reads an `int` of the width that the header gives. Where an integer
    /// of that width can be read, the cursor ends past it, also where it is
    /// out of range.
    pub fn read_int(&mut self) -> (r: Result<u32, Error>)
        ensures
            Self::reads(
                *old(self),
                *final(self),
                r,
                spec_int(old(self).code@, old(self).cursor as nat, old(self).header),
            ),
            r is Ok ==> old(self).cursor + old(self).header.size_int == final(self).cursor
                <= old(self).code@.len(),
            r is Ok ==> old(self).header.size_int >= 2,
            r is Err ==> final(self).cursor == old(self).cursor + (if (old(self).header.size_int
                == 2 || old(self).header.size_int == 4 || old(self).header.size_int == 8)
                && spec_uint(
                old(self).code@,
                old(self).cursor as nat,
                old(self).header.size_int as nat,
                old(self).header.endianess,
            ) is Ok {
                old(self).header.size_int as int
            } else {
                0
            }),
    {
        let start: usize = self.cursor;
        proof {
            lemma2_to64();
            self.lemma_uint_fits(self.header.size_int as nat);
        }
        match self.header.size_int {
            2 => match self.read_u16() {
                Err(e) => Err(e),
                Ok(v) => Ok(v as u32),
            },
            4 => self.read_u32(),
            8 => match self.read_u64() {
                Err(e) => Err(e),
                Ok(v) => if v <= u32::MAX as u64 {
                    Ok(v as u32)
                } else {
                    Err(fault_at("integer out of range", start))
                },
            },
            _ => Err(fault_at("unknown int size", start)),
        }
    }

    /// Reads a `size_t` of the width that the header gives. Where an integer
    /// of that width can be read, the cursor ends past it, also where it is
    /// out of range.
    pub fn read_size_t(&mut self) -> (r: Result<usize, Error>)
        ensures
            Self::reads(
                *old(self),
                *final(self),
                r,
                spec_size_t(old(self).code@, old(self).cursor as nat, old(self).header),
            ),
            r is Err ==> final(self).cursor == old(self).cursor + (if (old(self).header.size_t == 2
                || old(self).header.size_t == 4 || old(self).header.size_t == 8) && spec_uint(
                old(self).code@,
                old(self).cursor as nat,
                old(self).header.size_t as nat,
                old(self).header.endianess,
            ) is Ok {
                old(self).header.size_t as int
            } else {
                0
            }),
    {
        let start: usize = self.cursor;
        proof {
            lemma2_to64();
            self.lemma_uint_fits(self.header.size_t as nat);
        }
        match self.header.size_t {
            2 => match self.read_u16() {
                Err(e) => Err(e),
                Ok(v) => Ok(v as usize),
            },
            4 => match self.read_u32() {
                Err(e) => Err(e),
                Ok(v) => Ok(v as usize),
            },
            8 => match self.read_u64() {
                Err(e) => Err(e),
                Ok(v) => if v <= usize::MAX as u64 {
                    Ok(v as usize)
                } else {
                    Err(fault_at("size out of range", start))
                },
            },
            _ => Err(fault_at("unknown size_t", start)),
        }
    }

    /// Reads a number constant of the width that the header gives.
    pub fn read_number(&mut self) -> (r: Result<Number, Error>)
        ensures
            Self::reads(
                *old(self),
                *final(self),
                r,
                spec_number(old(self).code@, old(self).cursor as nat, old(self).header),
            ),
            r is Err ==> final(self).cursor == old(self).cursor,
    {
        proof {
            lemma2_to64();
            self.lemma_uint_fits(4);
            self.lemma_uint_fits(8);
        }
        match self.header.number_type {
            NumberType::F32 => match self.read_u32() {
                Err(e) => Err(e),
                Ok(v) => Ok(Number { bits: v as u64, single: true }),
            },
            NumberType::F64 => match self.read_u64() {
                Err(e) => Err(e),
                Ok(v) => Ok(Number { bits: v, single: false }),
            },
        }
    }

    /// Reads the escape character that opens a chunk. Where a byte can be
    /// read, the cursor ends past it, whatever the byte is.
    pub fn read_bytemark(&mut self) -> (r: Result<(), Error>)
        ensures
            Self::reads(
                *old(self),
                *final(self),
                r,
                spec_bytemark(old(self).code@, old(self).cursor as nat),
            ),
            match spec_u8(old(self).code@, old(self).cursor as nat) {
                Ok((_, n)) => final(self).cursor == old(self).cursor + n,
                Err(_) => final(self).cursor == old(self).cursor,
            },
    {
        let start: usize = self.cursor;
        match self.read_u8() {
            Err(e) => Err(e),
            Ok(bytemark) => if bytemark == ID_CHUNK {
                Ok(())
            } else {
                Err(fault_at("chunk bytemark must be 'Esc'(27)", start))
            },
        }
    }

    /// Reads the signature `Lua`. Where three bytes can be read, the cursor
    /// ends past them, whatever they are.
    pub fn read_signature(&mut self) -> (r: Result<(), Error>)
        ensures
            Self::reads(
                *old(self),
                *final(self),
                r,
                spec_signature(old(self).code@, old(self).cursor as nat),
            ),
            match spec_bytes(old(self).code@, old(self).cursor as nat, 3) {
                Ok((_, n)) => final(self).cursor == old(self).cursor + n,
                Err(_) => final(self).cursor == old(self).cursor,
            },
    {
        let start: usize = self.cursor;
        match self.read_exact(3) {
            Err(e) => Err(e),
            Ok(buf) => if buf[0] == 0x4C && buf[1] == 0x75 && buf[2] == 0x61 {
                assert(buf@ =~= seq![0x4Cu8, 0x75u8, 0x61u8]);
                Ok(())
            } else {
                Err(fault_at("bad signature", start))
            },
        }
    }

    /// Returns version. Where a byte can be read, the cursor ends past it,
    /// whatever the byte is.
    pub fn read_version(&mut self) -> (r: Result<u8, Error>)
        ensures
            Self::reads(
                *old(self),
                *final(self),
                r,
                spec_version(old(self).code@, old(self).cursor as nat),
            ),
            match spec_u8(old(self).code@, old(self).cursor as nat) {
                Ok((_, n)) => final(self).cursor == old(self).cursor + n,
                Err(_) => final(self).cursor == old(self).cursor,
            },
    {
        let start: usize = self.cursor;
        match self.read_u8() {
            Err(e) => Err(e),
            Ok(version) => if version == LUA_VERSION {
                Ok(version)
            } else {
                Err(fault_at("expected Lua version 4.0(0x40)", start))
            },
        }
    }

    /// Reads the byte order.
    pub fn read_endianess(&mut self) -> (r: Result<Endian, Error>)
        ensures
            Self::reads(
                *old(self),
                *final(self),
                r,
                spec_endianess(old(self).code@, old(self).cursor as nat),
            ),
            match spec_u8(old(self).code@, old(self).cursor as nat) {
                Ok((_, n)) => final(self).cursor == old(self).cursor + n,
                Err(_) => final(self).cursor == old(self).cursor,
            },
    {
        // Endianess is determined in C by casting a 32-bit
        // integer to a 8-bit character.
        match self.read_u8() {
            Err(e) => Err(e),
            Ok(mark) => if mark == 0 {
                Ok(Endian::Big)
            } else {
                Ok(Endian::Little)
            },
        }
    }

    /// Reads the test number that ends the header and holds it against the
    /// number format that the header gives. Where the number can be read,
    /// the cursor ends past it, whether it is the test number or not.
    pub fn check_number_format(&mut self) -> (r: Result<Number, Error>)
        ensures
            Self::reads(
                *old(self),
                *final(self),
                r,
                spec_test_number(old(self).code@, old(self).cursor as nat, old(self).header),
            ),
            match spec_number(old(self).code@, old(self).cursor as nat, old(self).header) {
                Ok((_, n)) => final(self).cursor == old(self).cursor + n,
                Err(_) => final(self).cursor == old(self).cursor,
            },
    {
        let start: usize = self.cursor;
        match self.read_number() {
            Err(e) => Err(e),
            Ok(number) => if number.single && number.bits != TEST_NUMBER_BITS_SINGLE {
                Err(fault_at("unknown f32 number format", start))
            } else if !number.single && number.bits != TEST_NUMBER_BITS {
                Err(fault_at("unknown f64 number format", start))
            } else {
                Ok(number)
            },
        }
    }

    /// Reads a string: its length, its bytes and the NUL that ends them.
    #[verifier::loop_isolation(false)]
    pub fn read_string(&mut self) -> (r: Result<String, Error>)
        ensures
            Self::reads_view(
                *old(self),
                *final(self),
                r,
                spec_string(old(self).code@, old(self).cursor as nat, old(self).header),
            ),
    {
        proof {
            reveal(spec_string);
        }
        let start: usize = self.cursor;
        let len: usize = match self.read_size_t() {
            Err(e) => {
                return Err(e);
            },
            Ok(len) => len,
        };
        let mut raw: Vec<u8> = match self.read_exact(len) {
            Err(e) => {
                return Err(e);
            },
            Ok(raw) => raw,
        };
        let ghost whole = raw@;
        if raw.len() == 0 || raw[raw.len() - 1] != 0 {
            return Err(fault_at("string does not end in NUL", start));
        }
        raw.pop();
        assert(raw@ == whole.drop_last());
        let mut i: usize = 0;
        while i < raw.len()
            invariant
                i <= raw.len(),
                forall|j: int| 0 <= j < i ==> raw@[j] != 0,
            decreases raw.len() - i,
        {
            if raw[i] == 0 {
                assert(raw@.contains(0u8));
                return Err(fault_at("string holds a NUL", start));
            }
            i = i + 1;
        }
        assert(!raw@.contains(0u8));
        match string_from_utf8(raw) {
            Some(string) => Ok(string),
            None => Err(fault_at("string is not UTF-8", start)),
        }
    }

    /// Reads the debug record of one local variable.
    pub fn read_local(&mut self) -> (r: Result<Local, Error>)
        ensures
            Self::reads_view(
                *old(self),
                *final(self),
                r,
                spec_local(old(self).code@, old(self).cursor as nat, old(self).header),
            ),
    {
        proof {
            reveal(spec_local);
        }
        let varname: String = match self.read_string() {
            Err(e) => {
                return Err(e);
            },
            Ok(varname) => varname,
        };
        let startpc: u32 = match self.read_int() {
            Err(e) => {
                return Err(e);
            },
            Ok(v) => v,
        };
        let endpc: u32 = match self.read_int() {
            Err(e) => {
                return Err(e);
            },
            Ok(v) => v,
        };
        Ok(Local { varname, startpc, endpc })
    }

    /// Reads the table of local variables: a count, then that many records.
    #[verifier::loop_isolation(false)]
    pub fn read_locals(&mut self) -> (r: Result<Vec<Local>, Error>)
        ensures
            final(self).code@ == old(self).code@,
            final(self).header == old(self).header,
            match spec_locals(old(self).code@, old(self).cursor as nat, old(self).header) {
                Ok((locals, used)) => {
                    &&& r is Ok
                    &&& locals_view(r->Ok_0@) == locals
                    &&& final(self).cursor == old(self).cursor + used
                },
                Err(e) => r is Err && r->Err_0@ == e,
            },
    {
        proof {
            reveal(spec_counted);
            reveal(spec_list);
        }
        let ghost bytes = self.code@;
        let ghost h = self.header;
        let n: u32 = match self.read_int() {
            Err(e) => {
                return Err(e);
            },
            Ok(n) => n,
        };
        let ghost start = self.cursor as nat;
        let mut locals: Vec<Local> = Vec::new();
        let mut i: u32 = 0;
        assert(locals_view(locals@) =~= Seq::empty());
        while i < n
            invariant
                i <= n,
                self.code@ == bytes,
                self.header == h,
                self.cursor >= start,
                spec_list(bytes, start, i as nat, local_item(h)) == Ok::<
                    (Seq<crate::lua40::proto::LocalView>, nat),
                    ErrorView,
                >((locals_view(locals@), (self.cursor - start) as nat)),
            decreases n - i,
        {
            match self.read_local() {
                Err(e) => {
                    proof {
                        lemma_list_error_stays(bytes, start, (i + 1) as nat, n as nat, local_item(h));
                    }
                    return Err(e);
                },
                Ok(local) => {
                    let ghost before = locals@;
                    locals.push(local);
                    assert(locals_view(locals@) =~= locals_view(before).push(local@));
                },
            }
            i = i + 1;
        }
        Ok(locals)
    }

    /// Reads the table of source lines: a count, then that many lines.
    #[verifier::loop_isolation(false)]
    pub fn read_lines(&mut self) -> (r: Result<Vec<u32>, Error>)
        ensures
            Self::reads_view(
                *old(self),
                *final(self),
                r,
                spec_lines(old(self).code@, old(self).cursor as nat, old(self).header),
            ),
    {
        proof {
            reveal(spec_counted);
            reveal(spec_list);
        }
        let ghost bytes = self.code@;
        let ghost h = self.header;
        let n: u32 = match self.read_int() {
            Err(e) => {
                return Err(e);
            },
            Ok(n) => n,
        };
        let ghost start = self.cursor as nat;
        let mut lines: Vec<u32> = Vec::new();
        let mut i: u32 = 0;
        while i < n
            invariant
                i <= n,
                self.code@ == bytes,
                self.header == h,
                self.cursor >= start,
                spec_list(bytes, start, i as nat, int_item(h)) == Ok::<(Seq<u32>, nat), ErrorView>(
                    (lines@, (self.cursor - start) as nat),
                ),
            decreases n - i,
        {
            match self.read_int() {
                Err(e) => {
                    proof {
                        lemma_list_error_stays(bytes, start, (i + 1) as nat, n as nat, int_item(h));
                    }
                    return Err(e);
                },
                Ok(line) => {
                    lines.push(line);
                },
            }
            i = i + 1;
        }
        Ok(lines)
    }

    /// Reads the instruction words: a count, then that many words.
    #[verifier::loop_isolation(false)]
    pub fn read_code(&mut self) -> (r: Result<Vec<u32>, Error>)
        ensures
            Self::reads_view(
                *old(self),
                *final(self),
                r,
                spec_code(old(self).code@, old(self).cursor as nat, old(self).header),
            ),
            r is Ok ==> old(self).cursor + old(self).header.size_int + 4 * r->Ok_0@.len() == final(self).cursor,
    {
        proof {
            reveal(spec_counted);
            reveal(spec_list);
        }
        let ghost bytes = self.code@;
        let ghost h = self.header;
        let n: u32 = match self.read_int() {
            Err(e) => {
                return Err(e);
            },
            Ok(n) => n,
        };
        let ghost start = self.cursor as nat;
        let mut code: Vec<u32> = Vec::new();
        let mut i: u32 = 0;
        while i < n
            invariant
                i <= n,
                self.code@ == bytes,
                self.header == h,
                self.cursor >= start,
                spec_list(bytes, start, i as nat, word_item(h)) == Ok::<(Seq<u32>, nat), ErrorView>(
                    (code@, (self.cursor - start) as nat),
                ),
            decreases n - i,
        {
            match self.read_u32() {
                Err(e) => {
                    proof {
                        lemma_list_error_stays(bytes, start, (i + 1) as nat, n as nat, word_item(h));
                    }
                    return Err(e);
                },
                Ok(word) => {
                    code.push(word);
                },
            }
            i = i + 1;
        }
        proof {
            lemma_words_span(bytes, start, n as nat, h);
        }
        Ok(code)
    }

    /// Reads the string constants: a count, then that many strings.
    #[verifier::loop_isolation(false)]
    pub fn read_strings(&mut self) -> (r: Result<Vec<String>, Error>)
        ensures
            final(self).code@ == old(self).code@,
            final(self).header == old(self).header,
            match spec_counted(
                old(self).code@,
                old(self).cursor as nat,
                old(self).header,
                string_item(old(self).header),
            ) {
                Ok((strings, used)) => {
                    &&& r is Ok
                    &&& strings_view(r->Ok_0@) == strings
                    &&& final(self).cursor == old(self).cursor + used
                },
                Err(e) => r is Err && r->Err_0@ == e,
            },
    {
        proof {
            reveal(spec_counted);
            reveal(spec_list);
        }
        let ghost bytes = self.code@;
        let ghost h = self.header;
        let n: u32 = match self.read_int() {
            Err(e) => {
                return Err(e);
            },
            Ok(n) => n,
        };
        let ghost start = self.cursor as nat;
        let mut strings: Vec<String> = Vec::new();
        let mut i: u32 = 0;
        assert(strings_view(strings@) =~= Seq::empty());
        while i < n
            invariant
                i <= n,
                self.code@ == bytes,
                self.header == h,
                self.cursor >= start,
                spec_list(bytes, start, i as nat, string_item(h)) == Ok::<
                    (Seq<Seq<char>>, nat),
                    ErrorView,
                >((strings_view(strings@), (self.cursor - start) as nat)),
            decreases n - i,
        {
            match self.read_string() {
                Err(e) => {
                    proof {
                        lemma_list_error_stays(bytes, start, (i + 1) as nat, n as nat, string_item(h));
                    }
                    return Err(e);
                },
                Ok(string) => {
                    let ghost before = strings@;
                    strings.push(string);
                    assert(strings_view(strings@) =~= strings_view(before).push(string@));
                },
            }
            i = i + 1;
        }
        Ok(strings)
    }

    /// Reads the number constants: a count, then that many numbers.
    #[verifier::loop_isolation(false)]
    pub fn read_numbers(&mut self) -> (r: Result<Vec<Number>, Error>)
        ensures
            Self::reads_view(
                *old(self),
                *final(self),
                r,
                spec_counted(
                    old(self).code@,
                    old(self).cursor as nat,
                    old(self).header,
                    number_item(old(self).header),
                ),
            ),
    {
        proof {
            reveal(spec_counted);
            reveal(spec_list);
        }
        let ghost bytes = self.code@;
        let ghost h = self.header;
        let n: u32 = match self.read_int() {
            Err(e) => {
                return Err(e);
            },
            Ok(n) => n,
        };
        let ghost start = self.cursor as nat;
        let mut numbers: Vec<Number> = Vec::new();
        let mut i: u32 = 0;
        while i < n
            invariant
                i <= n,
                self.code@ == bytes,
                self.header == h,
                self.cursor >= start,
                spec_list(bytes, start, i as nat, number_item(h)) == Ok::<
                    (Seq<Number>, nat),
                    ErrorView,
                >((numbers@, (self.cursor - start) as nat)),
            decreases n - i,
        {
            match self.read_number() {
                Err(e) => {
                    proof {
                        lemma_list_error_stays(bytes, start, (i + 1) as nat, n as nat, number_item(h));
                    }
                    return Err(e);
                },
                Ok(number) => {
                    numbers.push(number);
                },
            }
            i = i + 1;
        }
        Ok(numbers)
    }

    /// Reads the constants of a function: strings, numbers and nested
    /// prototypes.
    #[verifier::loop_isolation(false)]
    #[verifier::rlimit(50)]
    pub fn read_constants(&mut self) -> (r: Result<Constants, Error>)
        requires
            old(self).header.supported(),
        ensures
            Self::reads_view(
                *old(self),
                *final(self),
                r,
                spec_constants(old(self).code@, old(self).cursor as nat, old(self).header),
            ),
            r is Ok ==> forall|i: int|
                0 <= i < r->Ok_0@.protos.len() ==> (#[trigger] r->Ok_0@.protos[i]).well_formed(),
        decreases remaining(old(self).code@, old(self).cursor as nat), 0nat,
    {
        proof {
            reveal(spec_function);
            reveal(spec_constants);
            reveal(spec_protos);
        }
        let ghost bytes = self.code@;
        let ghost h = self.header;
        let ghost pos = self.cursor as nat;
        let strings: Vec<String> = match self.read_strings() {
            Err(e) => {
                return Err(e);
            },
            Ok(v) => v,
        };
        let numbers: Vec<Number> = match self.read_numbers() {
            Err(e) => {
                return Err(e);
            },
            Ok(v) => v,
        };
        let n: u32 = match self.read_int() {
            Err(e) => {
                return Err(e);
            },
            Ok(n) => n,
        };
        let ghost start = self.cursor as nat;
        assert(pos < start <= bytes.len());
        let mut protos: Vec<Proto> = Vec::new();
        let mut i: u32 = 0;
        assert(protos_view(protos@) =~= Seq::empty());
        while i < n
            invariant
                i <= n,
                self.code@ == bytes,
                self.header == h,
                h.supported(),
                self.cursor >= start,
                pos < start <= bytes.len(),
                spec_protos(bytes, start, h, i as nat) == Ok::<
                    (Seq<crate::lua40::proto::ProtoView>, nat),
                    ErrorView,
                >((protos_view(protos@), (self.cursor - start) as nat)),
                forall|j: int|
                    0 <= j < protos@.len() ==> (#[trigger] protos_view(protos@)[j]).well_formed(),
            decreases n - i,
        {
            match self.read_function() {
                Err(e) => {
                    proof {
                        lemma_protos_error_stays(bytes, start, h, (i + 1) as nat, n as nat);
                    }
                    return Err(e);
                },
                Ok(proto) => {
                    let ghost before = protos@;
                    protos.push(proto);
                    assert(protos_view(protos@) =~= protos_view(before).push(proto@));
                },
            }
            i = i + 1;
        }
        Ok(Constants { strings, numbers, protos })
    }

    /// Reads the fields that open a function.
    pub fn read_function_head(&mut self) -> (r: Result<(String, u32, u32, bool, u32), Error>)
        ensures
            final(self).code@ == old(self).code@,
            final(self).header == old(self).header,
            match spec_function_head(old(self).code@, old(self).cursor as nat, old(self).header) {
                Ok((head, used)) => {
                    &&& r is Ok
                    &&& r->Ok_0.0@ == head.0
                    &&& r->Ok_0.1 == head.1
                    &&& r->Ok_0.2 == head.2
                    &&& r->Ok_0.3 == head.3
                    &&& r->Ok_0.4 == head.4
                    &&& used >= 1
                    &&& final(self).cursor == old(self).cursor + used
                    &&& final(self).cursor <= old(self).code@.len()
                },
                Err(e) => r is Err && r->Err_0@ == e,
            },
    {
        proof {
            reveal(spec_function_head);
        }
        let source: String = match self.read_string() {
            Err(e) => {
                return Err(e);
            },
            Ok(v) => v,
        };
        let line_defined: u32 = match self.read_int() {
            Err(e) => {
                return Err(e);
            },
            Ok(v) => v,
        };
        let num_params: u32 = match self.read_int() {
            Err(e) => {
                return Err(e);
            },
            Ok(v) => v,
        };
        let is_vararg: bool = match self.read_u8() {
            Err(e) => {
                return Err(e);
            },
            Ok(v) => v != 0,
        };
        let max_stack: u32 = match self.read_int() {
            Err(e) => {
                return Err(e);
            },
            Ok(v) => v,
        };
        Ok((source, line_defined, num_params, is_vararg, max_stack))
    }

    /// Decodes the instruction words of a function, which start at the byte
    /// offset `base`.
    #[verifier::loop_isolation(false)]
    pub fn decode_ops(&self, code: &Vec<u32>, base: usize) -> (r: Result<Vec<Op>, Error>)
        requires
            self.header.supported(),
            base + 4 * code@.len() <= usize::MAX,
        ensures
            match spec_ops(self.header, code@, base as nat, code@.len()) {
                Ok(ops) => r is Ok && r->Ok_0@ == ops && ops.len() == code@.len(),
                Err(e) => r is Err && r->Err_0@ == e,
            },
    {
        proof {
            reveal(spec_ops);
        }
        let ghost h = self.header;
        let mut ops: Vec<Op> = Vec::new();
        let mut i: usize = 0;
        while i < code.len()
            invariant
                i <= code.len(),
                spec_ops(h, code@, base as nat, i as nat) == Ok::<Seq<Op>, ErrorView>(ops@),
                ops@.len() == i,
            decreases code.len() - i,
        {
            match self.decode_op(code[i]) {
                Err(e) => {
                    proof {
                        lemma_ops_error_stays(h, code@, base as nat, (i + 1) as nat, code@.len());
                    }
                    return Err(e.at_byte(base + 4 * i));
                },
                Ok(op) => {
                    ops.push(op);
                },
            }
            i = i + 1;
        }
        Ok(ops)
    }

    /// Reads a function prototype, with the prototypes nested in it.
    #[verifier::rlimit(50)]
    pub fn read_function(&mut self) -> (r: Result<Proto, Error>)
        requires
            old(self).header.supported(),
        ensures
            Self::reads_view(
                *old(self),
                *final(self),
                r,
                spec_function(old(self).code@, old(self).cursor as nat, old(self).header),
            ),
            r is Ok ==> r->Ok_0@.well_formed(),
        decreases remaining(old(self).code@, old(self).cursor as nat), 1nat,
    {
        proof {
            reveal(spec_function);
            reveal(spec_constants);
            reveal(spec_protos);
        }
        let head = match self.read_function_head() {
            Err(e) => {
                return Err(e);
            },
            Ok(v) => v,
        };
        let locals: Vec<Local> = match self.read_locals() {
            Err(e) => {
                return Err(e);
            },
            Ok(v) => v,
        };
        let lines_start: usize = self.cursor;
        let lines: Vec<u32> = match self.read_lines() {
            Err(e) => {
                return Err(e);
            },
            Ok(v) => v,
        };
        let constants: Constants = match self.read_constants() {
            Err(e) => {
                return Err(e);
            },
            Ok(v) => v,
        };
        let code_start: usize = self.cursor;
        let code: Vec<u32> = match self.read_code() {
            Err(e) => {
                return Err(e);
            },
            Ok(v) => v,
        };
        if lines.len() != 0 && lines.len() != code.len() {
            return Err(fault_at("line table does not match the code", lines_start));
        }
        let base: usize = code_start + self.header.size_int as usize;
        let ops: Vec<Op> = match self.decode_ops(&code, base) {
            Err(e) => {
                return Err(e);
            },
            Ok(v) => v,
        };
        let (source, line_defined, num_params, is_vararg, max_stack) = head;
        Ok(
            Proto {
                code,
                ops,
                source,
                line_defined,
                num_params,
                is_vararg,
                max_stack,
                locals,
                constants,
                lines,
            },
        )
    }

    /// Reads the seven size bytes of the header.
    pub fn read_sizes(&mut self, version: u8, endianess: Endian) -> (r: Result<Header, Error>)
        ensures
            Self::reads(
                *old(self),
                *final(self),
                r,
                spec_sizes(old(self).code@, old(self).cursor as nat, version, endianess),
            ),
    {
        let size_int: u8 = match self.read_u8() {
            Err(e) => {
                return Err(e);
            },
            Ok(v) => v,
        };
        let size_t: u8 = match self.read_u8() {
            Err(e) => {
                return Err(e);
            },
            Ok(v) => v,
        };
        let size_instr: u8 = match self.read_u8() {
            Err(e) => {
                return Err(e);
            },
            Ok(v) => v,
        };
        let size_instr_arg: u8 = match self.read_u8() {
            Err(e) => {
                return Err(e);
            },
            Ok(v) => v,
        };
        let size_op: u8 = match self.read_u8() {
            Err(e) => {
                return Err(e);
            },
            Ok(v) => v,
        };
        let size_b: u8 = match self.read_u8() {
            Err(e) => {
                return Err(e);
            },
            Ok(v) => v,
        };
        let number_start: usize = self.cursor;
        let size_number: u8 = match self.read_u8() {
            Err(e) => {
                return Err(e);
            },
            Ok(v) => v,
        };
        let number_type: NumberType = match size_number {
            4 => NumberType::F32,
            8 => NumberType::F64,
            _ => {
                return Err(fault_at("unknown number size", number_start));
            },
        };
        Ok(
            Header {
                version,
                endianess,
                size_int,
                size_t,
                size_instr,
                size_instr_arg,
                size_op,
                size_b,
                number_type,
            },
        )
    }

    /// Reads the header of the chunk and puts its layout in force.
    pub fn read_header(&mut self) -> (r: Result<Header, Error>)
        ensures
            final(self).code@ == old(self).code@,
            match spec_header(old(self).code@, old(self).cursor as nat) {
                Ok((header, used)) => {
                    &&& r == Ok::<Header, Error>(header)
                    &&& header.supported()
                    &&& final(self).header == header
                    &&& final(self).cursor == old(self).cursor + used
                },
                Err(e) => r is Err && r->Err_0@ == e,
            },
    {
        proof {
            reveal(spec_header);
        }
        match self.read_bytemark() {
            Err(e) => {
                return Err(e);
            },
            Ok(_) => {},
        }
        match self.read_signature() {
            Err(e) => {
                return Err(e);
            },
            Ok(_) => {},
        }
        let version: u8 = match self.read_version() {
            Err(e) => {
                return Err(e);
            },
            Ok(v) => v,
        };
        let endianess: Endian = match self.read_endianess() {
            Err(e) => {
                return Err(e);
            },
            Ok(v) => v,
        };
        let sizes_start: usize = self.cursor;
        let header: Header = match self.read_sizes(version, endianess) {
            Err(e) => {
                return Err(e);
            },
            Ok(v) => v,
        };
        if !header.is_supported() {
            return Err(fault_at("unsupported instruction layout", sizes_start));
        }
        self.header = header;
        match self.check_number_format() {
            Err(e) => {
                return Err(e);
            },
            Ok(_) => {},
        }
        Ok(header)
    }

    /// Decodes the chunk: its header, which sets the layout in force, then
    /// its top-level function.
    pub fn decode(&mut self) -> (r: Result<Proto, Error>)
        ensures
            final(self).code@ == old(self).code@,
            match spec_chunk(old(self).code@, old(self).cursor as nat) {
                Ok(((header, proto), used)) => {
                    &&& r is Ok
                    &&& r->Ok_0@ == proto
                    &&& proto.well_formed()
                    &&& final(self).header == header
                    &&& final(self).cursor == old(self).cursor + used
                },
                Err(e) => r is Err && r->Err_0@ == e,
            },
    {
        match self.read_header() {
            Err(e) => {
                return Err(e);
            },
            Ok(_) => {},
        }
        // Top level function
        self.read_function()
    }

    /// Takes an instruction word apart under the header in force.
    pub fn decode_op(&self, op: u32) -> (r: Result<Op, Error>)
        requires
            self.header.supported(),
        ensures
            match self.header.decoded(op) {
                Ok(decoded) => r == Ok::<Op, Error>(decoded),
                Err(e) => r is Err && r->Err_0@ == e,
            },
    {
        self.header.decode_op(op)
    }
}

/// Once an item of a list fails, the list fails with that item's error,
/// however many items it was to have.
pub proof fn lemma_list_error_stays<T>(
    bytes: Seq<u8>,
    pos: nat,
    k: nat,
    n: nat,
    item: spec_fn(Seq<u8>, nat) -> Parsed<T>,
)
    requires
        k <= n,
        spec_list(bytes, pos, k, item) is Err,
    ensures
        spec_list(bytes, pos, n, item) == spec_list(bytes, pos, k, item),
    decreases n,
{
    reveal(spec_list);
    if k < n {
        lemma_list_error_stays(bytes, pos, k, (n - 1) as nat, item);
    }
}

/// Once a nested prototype fails, the list of them fails with its error,
/// however many it was to have.
pub proof fn lemma_protos_error_stays(bytes: Seq<u8>, pos: nat, h: Header, k: nat, n: nat)
    requires
        k <= n,
        spec_protos(bytes, pos, h, k) is Err,
    ensures
        spec_protos(bytes, pos, h, n) == spec_protos(bytes, pos, h, k),
    decreases n,
{
    reveal(spec_protos);
    if k < n {
        lemma_protos_error_stays(bytes, pos, h, k, (n - 1) as nat);
    }
}

/// Once an instruction word fails to decode, the code fails with its error,
/// however many words it has.
pub proof fn lemma_ops_error_stays(h: Header, code: Seq<u32>, base: nat, k: nat, n: nat)
    requires
        k <= n,
        spec_ops(h, code, base, k) is Err,
    ensures
        spec_ops(h, code, base, n) == spec_ops(h, code, base, k),
    decreases n,
{
    reveal(spec_ops);
    if k < n {
        lemma_ops_error_stays(h, code, base, k, (n - 1) as nat);
    }
}

/// The first `n` instructions decode to `n` instructions.
pub proof fn lemma_ops_count(h: Header, code: Seq<u32>, base: nat, n: nat)
    ensures
        match spec_ops(h, code, base, n) {
            Ok(ops) => ops.len() == n,
            Err(_) => true,
        },
    decreases n,
{
    reveal(spec_ops);
    if n > 0 {
        lemma_ops_count(h, code, base, (n - 1) as nat);
    }
}

/// Every prototype that the format yields is well-formed: it has as many
/// decoded instructions as instruction words; its line table is empty or has
/// a line for each instruction; and the same holds of every prototype nested
/// in it.
pub proof fn lemma_function_well_formed(bytes: Seq<u8>, pos: nat, h: Header)
    ensures
        match spec_function(bytes, pos, h) {
            Ok((proto, _)) => proto.well_formed(),
            Err(_) => true,
        },
    decreases remaining(bytes, pos), 0nat, 2nat,
{
    reveal(spec_function);
    reveal(spec_constants);
    reveal(spec_protos);
    match spec_function_head(bytes, pos, h) {
        Ok((_, n1)) => match spec_locals(bytes, pos + n1, h) {
            Ok((_, n2)) => match spec_lines(bytes, pos + n1 + n2, h) {
                Ok((_, n3)) => {
                    lemma_constants_well_formed(bytes, pos + n1 + n2 + n3, h);
                    match spec_constants(bytes, pos + n1 + n2 + n3, h) {
                        Ok((_, n4)) => match spec_code(bytes, pos + n1 + n2 + n3 + n4, h) {
                            Ok((code, _)) => {
                                lemma_ops_count(
                                    h,
                                    code,
                                    pos + n1 + n2 + n3 + n4 + h.size_int as nat,
                                    code.len(),
                                );
                            },
                            Err(_) => {},
                        },
                        Err(_) => {},
                    }
                },
                Err(_) => {},
            },
            Err(_) => {},
        },
        Err(_) => {},
    }
}

/// Every prototype among the constants that the format yields is
/// well-formed.
pub proof fn lemma_constants_well_formed(bytes: Seq<u8>, pos: nat, h: Header)
    ensures
        match spec_constants(bytes, pos, h) {
            Ok((constants, _)) => forall|i: int|
                0 <= i < constants.protos.len() ==> (#[trigger] constants.protos[i]).well_formed(),
            Err(_) => true,
        },
    decreases remaining(bytes, pos), 0nat, 1nat,
{
    reveal(spec_function);
    reveal(spec_constants);
    reveal(spec_protos);
    match spec_counted(bytes, pos, h, string_item(h)) {
        Ok((_, n1)) => match spec_counted(bytes, pos + n1, h, number_item(h)) {
            Ok((_, n2)) => match spec_int(bytes, pos + n1 + n2, h) {
                Ok((count, n3)) => {
                    lemma_protos_well_formed(bytes, pos + n1 + n2 + n3, h, count as nat);
                },
                Err(_) => {},
            },
            Err(_) => {},
        },
        Err(_) => {},
    }
}

/// Every prototype in a row that the format yields is well-formed.
pub proof fn lemma_protos_well_formed(bytes: Seq<u8>, pos: nat, h: Header, n: nat)
    ensures
        match spec_protos(bytes, pos, h, n) {
            Ok((protos, _)) => forall|i: int|
                0 <= i < protos.len() ==> (#[trigger] protos[i]).well_formed(),
            Err(_) => true,
        },
    decreases remaining(bytes, pos), n, 0nat,
{
    reveal(spec_function);
    reveal(spec_constants);
    reveal(spec_protos);
    if n > 0 {
        lemma_protos_well_formed(bytes, pos, h, (n - 1) as nat);
        match spec_protos(bytes, pos, h, (n - 1) as nat) {
            Ok((_, used)) => {
                lemma_function_well_formed(bytes, pos + used, h);
            },
            Err(_) => {},
        }
    }
}

/// The code of a function holds as many instruction words as the count in
/// front of them says, and takes four bytes for each.
pub proof fn lemma_code_count(bytes: Seq<u8>, pos: nat, h: Header)
    ensures
        match spec_code(bytes, pos, h) {
            Ok((code, used)) => {
                &&& spec_int(bytes, pos, h) is Ok
                &&& code.len() == spec_int(bytes, pos, h)->Ok_0.0
                &&& used == h.size_int + 4 * code.len()
            },
            Err(_) => true,
        },
{
    reveal(spec_counted);
    match spec_int(bytes, pos, h) {
        Ok((n, n1)) => {
            lemma_words_span(bytes, pos + n1, n as nat, h);
        },
        Err(_) => {},
    }
}

/// A list of `n` instruction words takes four bytes for each.
pub proof fn lemma_words_span(bytes: Seq<u8>, pos: nat, n: nat, h: Header)
    ensures
        match spec_list(bytes, pos, n, word_item(h)) {
            Ok((code, used)) => code.len() == n && used == 4 * n && (n > 0 ==> pos + used
                <= bytes.len()),
            Err(_) => true,
        },
    decreases n,
{
    reveal(spec_list);
    if n > 0 {
        lemma_words_span(bytes, pos, (n - 1) as nat, h);
    }
}

} // verus!
