use lua_decompiler::errors::{Error, ErrorKind};
use lua_decompiler::lua40::decoder::Decoder;
use lua_decompiler::lua40::opcode::{Header, Op, Opcode};
use lua_decompiler::reader::{Endian, NumberType};

const BIAS: i64 = (1 << 25) - 1;

fn header_bytes() -> Vec<u8> {
    let mut bytes = vec![0x1B, b'L', b'u', b'a', 0x40, 1, 4, 4, 4, 32, 6, 9, 8];
    bytes.extend_from_slice(&3.14159265358979323846E8f64.to_le_bytes());
    bytes
}

fn put_int(bytes: &mut Vec<u8>, v: u32) {
    bytes.extend_from_slice(&v.to_le_bytes());
}

fn put_string(bytes: &mut Vec<u8>, s: &str) {
    put_int(bytes, s.len() as u32 + 1);
    bytes.extend_from_slice(s.as_bytes());
    bytes.push(0);
}

fn op_u(opcode: u32, u: u32) -> u32 {
    (u << 6) | opcode
}

fn op_s(opcode: u32, s: i64) -> u32 {
    (((s + BIAS) as u32) << 6) | opcode
}

fn op_ab(opcode: u32, a: u32, b: u32) -> u32 {
    (a << 15) | (b << 6) | opcode
}

/// A function with no debug tables, the given string constants and code.
fn function(bytes: &mut Vec<u8>, strings: &[&str], children: &[Vec<u8>], code: &[u32]) {
    put_string(bytes, "@test.lua");
    put_int(bytes, 0);
    put_int(bytes, 0);
    bytes.push(0);
    put_int(bytes, 8);
    put_int(bytes, 0);
    put_int(bytes, 0);
    put_int(bytes, strings.len() as u32);
    for s in strings {
        put_string(bytes, s);
    }
    put_int(bytes, 0);
    put_int(bytes, children.len() as u32);
    for child in children {
        bytes.extend_from_slice(child);
    }
    put_int(bytes, code.len() as u32);
    for word in code {
        put_int(bytes, *word);
    }
}

fn standard_header() -> Header {
    Header {
        version: 0x40,
        endianess: Endian::Little,
        size_int: 4,
        size_t: 4,
        size_instr: 4,
        size_instr_arg: 32,
        size_op: 6,
        size_b: 9,
        number_type: NumberType::F64,
    }
}

fn decoder_message(bytes: &[u8]) -> String {
    let mut decoder = Decoder::new(bytes);
    match decoder.decode() {
        Ok(_) => panic!("decoded"),
        Err(e) => match e.kind {
            ErrorKind::Decoder(message) => message,
            other => panic!("wrong kind: {:?}", other),
        },
    }
}

#[test]
fn decodes_a_minimal_chunk() {
    let mut bytes = header_bytes();
    function(&mut bytes, &[], &[], &[op_s(6, 1), 0]);
    let mut decoder = Decoder::new(&bytes);
    let proto = decoder.decode().unwrap();
    assert_eq!(proto.source, "@test.lua");
    assert_eq!(proto.code, vec![op_s(6, 1), 0]);
    assert_eq!(proto.ops, vec![Op::PushInt { signed: 1 }, Op::End]);
    assert_eq!(proto.max_stack, 8);
    assert!(!proto.is_vararg);
    assert!(proto.lines.is_empty());
    assert_eq!(decoder.cursor, bytes.len());
    assert_eq!(decoder.header.size_op, 6);
}

#[test]
fn instruction_count_equals_word_count() {
    let code: Vec<u32> = (0..5).map(|i| op_s(6, i)).chain([0]).collect();
    let mut bytes = header_bytes();
    function(&mut bytes, &[], &[], &code);
    let proto = Decoder::new(&bytes).decode().unwrap();
    assert_eq!(proto.ops.len(), 6);
    assert_eq!(proto.code.len(), 6);
}

#[test]
fn decodes_a_nested_prototype() {
    let mut child = Vec::new();
    function(&mut child, &["print"], &[], &[op_u(12, 0), op_s(6, 7), op_ab(2, 0, 0), 0]);
    let mut bytes = header_bytes();
    function(&mut bytes, &[], &[child], &[0]);
    let proto = Decoder::new(&bytes).decode().unwrap();
    assert_eq!(proto.constants.protos.len(), 1);
    let nested = &proto.constants.protos[0];
    assert_eq!(nested.constants.strings, vec!["print".to_string()]);
    assert_eq!(
        nested.ops,
        vec![
            Op::GetGlobal { string_id: 0 },
            Op::PushInt { signed: 7 },
            Op::Call { stack_offset: 0, results: 0 },
            Op::End,
        ]
    );
}

#[test]
fn rejects_a_bad_bytemark() {
    let mut bytes = header_bytes();
    bytes[0] = 0x1C;
    assert_eq!(decoder_message(&bytes), "chunk bytemark must be 'Esc'(27) at byte 0");
}

#[test]
fn rejects_a_bad_signature() {
    let mut bytes = header_bytes();
    bytes[2] = b'U';
    assert_eq!(decoder_message(&bytes), "bad signature at byte 1");
}

#[test]
fn rejects_another_version() {
    let mut bytes = header_bytes();
    bytes[4] = 0x50;
    assert_eq!(decoder_message(&bytes), "expected Lua version 4.0(0x40) at byte 4");
}

#[test]
fn rejects_an_unknown_number_size() {
    let mut bytes = header_bytes();
    bytes[12] = 16;
    assert_eq!(decoder_message(&bytes), "unknown number size at byte 12");
}

#[test]
fn rejects_a_wrong_test_number() {
    let mut bytes = header_bytes();
    bytes[13] ^= 1;
    assert_eq!(decoder_message(&bytes), "unknown f64 number format at byte 13");
}

#[test]
fn accepts_the_single_precision_test_number() {
    let mut bytes = vec![0x1B, b'L', b'u', b'a', 0x40, 1, 4, 4, 4, 32, 6, 9, 4];
    bytes.extend_from_slice(&(3.14159265358979323846E8f64 as f32).to_le_bytes());
    function(&mut bytes, &[], &[], &[0]);
    let mut decoder = Decoder::new(&bytes);
    decoder.decode().unwrap();
    assert_eq!(decoder.header.number_type, NumberType::F32);
}

#[test]
fn rejects_an_unsupported_layout() {
    let mut bytes = header_bytes();
    bytes[9] = 16;
    assert_eq!(decoder_message(&bytes), "unsupported instruction layout at byte 6");
}

#[test]
fn rejects_a_short_chunk() {
    let bytes = header_bytes();
    assert_eq!(decoder_message(&bytes[..10]), "unexpected end of chunk at byte 10");
    assert_eq!(decoder_message(&bytes), "unexpected end of chunk at byte 21");
}

#[test]
fn rejects_a_string_without_nul() {
    let mut bytes = header_bytes();
    put_int(&mut bytes, 2);
    bytes.extend_from_slice(b"ab");
    assert_eq!(decoder_message(&bytes), "string does not end in NUL at byte 21");
}

#[test]
fn rejects_a_string_with_an_inner_nul() {
    let mut bytes = header_bytes();
    put_int(&mut bytes, 3);
    bytes.extend_from_slice(&[b'a', 0, 0]);
    assert_eq!(decoder_message(&bytes), "string holds a NUL at byte 21");
}

#[test]
fn rejects_a_string_that_is_not_utf8() {
    let mut bytes = header_bytes();
    put_int(&mut bytes, 2);
    bytes.extend_from_slice(&[0xFF, 0]);
    assert_eq!(decoder_message(&bytes), "string is not UTF-8 at byte 21");
}

#[test]
fn rejects_an_unknown_opcode() {
    let mut bytes = header_bytes();
    function(&mut bytes, &[], &[], &[0, 63]);
    let offset = bytes.len() - 4;
    assert_eq!(decoder_message(&bytes), format!("unknown opcode: 63 at byte {}", offset));
}

#[test]
fn rejects_a_line_table_of_the_wrong_length() {
    let mut bytes = header_bytes();
    put_string(&mut bytes, "@test.lua");
    put_int(&mut bytes, 0);
    put_int(&mut bytes, 0);
    bytes.push(0);
    put_int(&mut bytes, 8);
    put_int(&mut bytes, 0);
    let lines_at = bytes.len();
    put_int(&mut bytes, 1);
    put_int(&mut bytes, 10);
    put_int(&mut bytes, 0);
    put_int(&mut bytes, 0);
    put_int(&mut bytes, 0);
    put_int(&mut bytes, 2);
    put_int(&mut bytes, op_s(6, 1));
    put_int(&mut bytes, 0);
    assert_eq!(
        decoder_message(&bytes),
        format!("line table does not match the code at byte {}", lines_at)
    );
}

#[test]
fn keeps_a_line_for_each_instruction() {
    let mut bytes = header_bytes();
    put_string(&mut bytes, "@test.lua");
    put_int(&mut bytes, 0);
    put_int(&mut bytes, 0);
    bytes.push(1);
    put_int(&mut bytes, 8);
    put_int(&mut bytes, 1);
    put_string(&mut bytes, "x");
    put_int(&mut bytes, 0);
    put_int(&mut bytes, 2);
    put_int(&mut bytes, 2);
    put_int(&mut bytes, 1);
    put_int(&mut bytes, 1);
    put_int(&mut bytes, 0);
    put_int(&mut bytes, 0);
    put_int(&mut bytes, 0);
    put_int(&mut bytes, 2);
    put_int(&mut bytes, op_s(6, 1));
    put_int(&mut bytes, 0);
    let proto = Decoder::new(&bytes).decode().unwrap();
    assert!(proto.is_vararg);
    assert_eq!(proto.lines.len(), proto.ops.len());
    assert_eq!(proto.locals.len(), 1);
    assert_eq!(proto.locals[0].varname, "x");
    assert_eq!((proto.locals[0].startpc, proto.locals[0].endpc), (0, 2));
}

#[test]
fn honours_big_endian_integers() {
    let mut bytes = vec![0x1B, b'L', b'u', b'a', 0x40, 0, 4, 4, 4, 32, 6, 9, 8];
    bytes.extend_from_slice(&3.14159265358979323846E8f64.to_be_bytes());
    let push = |bytes: &mut Vec<u8>, v: u32| bytes.extend_from_slice(&v.to_be_bytes());
    push(&mut bytes, 2);
    bytes.extend_from_slice(b"m\0");
    push(&mut bytes, 3);
    push(&mut bytes, 0);
    bytes.push(0);
    push(&mut bytes, 1);
    for _ in 0..5 {
        push(&mut bytes, 0);
    }
    push(&mut bytes, 1);
    push(&mut bytes, 0);
    let mut decoder = Decoder::new(&bytes);
    let proto = decoder.decode().unwrap();
    assert_eq!(decoder.header.endianess, Endian::Big);
    assert_eq!(proto.source, "m");
    assert_eq!(proto.line_defined, 3);
    assert_eq!(proto.ops, vec![Op::End]);
}

#[test]
fn takes_instruction_words_apart() {
    let header = standard_header();
    assert_eq!(header.decode_op(op_u(1, 3)).unwrap(), Op::Return { results: 3 });
    assert_eq!(
        header.decode_op(op_ab(2, 5, 255)).unwrap(),
        Op::Call { stack_offset: 5, results: 255 }
    );
    assert_eq!(header.decode_op(op_s(6, -7)).unwrap(), Op::PushInt { signed: -7 });
    assert_eq!(header.decode_op(op_s(35, 3)).unwrap(), Op::JumpLe { rel: 3 });
    assert_eq!(header.decode_op(op_ab(48, 2, 1)).unwrap(), Op::Closure { proto_id: 2, n: 1 });
    assert_eq!(header.decode_op(23).unwrap(), Op::Add);
}

#[test]
fn signed_field_spans_its_biased_range() {
    let header = standard_header();
    assert_eq!(header.max_arg_s(), (1 << 25) - 1);
    assert_eq!(header.max_arg_u(), (1 << 26) - 1);
    assert_eq!(header.decode_op(6).unwrap(), Op::PushInt { signed: -((1 << 25) - 1) });
    assert_eq!(header.decode_op(0xFFFF_FFC6).unwrap(), Op::PushInt { signed: 1 << 25 });
    assert_eq!(
        header.decode_op(op_u(6, (1 << 26) - 2)).unwrap(),
        Op::PushInt { signed: (1 << 25) - 1 }
    );
}

#[test]
fn header_gives_the_field_layout() {
    let header = standard_header();
    assert!(header.is_supported());
    assert_eq!(header.size_u(), 26);
    assert_eq!(header.size_a(), 17);
    assert_eq!(header.pos_arg_a(), 15);
    assert_eq!(header.pos_arg_b(), 6);
    assert_eq!(header.max_arg_a(), (1 << 17) - 1);
    assert_eq!(header.max_arg_b(), 511);
    assert!(!Header::default().is_supported());
}

#[test]
fn opcodes_are_numbered_from_end_to_closure() {
    assert_eq!(Opcode::try_from(0).unwrap(), Opcode::End);
    assert_eq!(Opcode::try_from(23).unwrap(), Opcode::Add);
    assert_eq!(Opcode::try_from(48).unwrap(), Opcode::Closure);
    let e = Opcode::try_from(49).unwrap_err();
    assert_eq!(e.describe(), "decoder error: unknown opcode: 49");
}

#[test]
fn rejects_a_wrong_single_precision_test_number() {
    let mut bytes = vec![0x1B, b'L', b'u', b'a', 0x40, 1, 4, 4, 4, 32, 6, 9, 4];
    bytes.extend_from_slice(&1.0f32.to_le_bytes());
    assert_eq!(decoder_message(&bytes), "unknown f32 number format at byte 13");
}

#[test]
fn rejects_unknown_integer_widths() {
    let mut bytes = header_bytes();
    bytes[7] = 3;
    put_int(&mut bytes, 1);
    assert_eq!(decoder_message(&bytes), "unknown size_t at byte 21");
    let mut bytes = header_bytes();
    bytes[6] = 1;
    put_string(&mut bytes, "s");
    put_int(&mut bytes, 0);
    assert_eq!(decoder_message(&bytes), "unknown int size at byte 27");
}

#[test]
fn reads_integers_of_two_and_eight_bytes() {
    let mut bytes = header_bytes();
    bytes[6] = 8;
    bytes[7] = 2;
    bytes.extend_from_slice(&2u16.to_le_bytes());
    bytes.extend_from_slice(b"m\0");
    let wide = |bytes: &mut Vec<u8>, v: u64| bytes.extend_from_slice(&v.to_le_bytes());
    wide(&mut bytes, 5);
    wide(&mut bytes, 1);
    bytes.push(0);
    wide(&mut bytes, 2);
    for _ in 0..5 {
        wide(&mut bytes, 0);
    }
    wide(&mut bytes, 1);
    put_int(&mut bytes, 0);
    let proto = Decoder::new(&bytes).decode().unwrap();
    assert_eq!(proto.source, "m");
    assert_eq!((proto.line_defined, proto.num_params, proto.max_stack), (5, 1, 2));
    assert_eq!(proto.ops, vec![Op::End]);
}

#[test]
fn rejects_an_integer_that_is_too_large() {
    let mut bytes = header_bytes();
    bytes[6] = 8;
    put_string(&mut bytes, "s");
    let at = bytes.len();
    bytes.extend_from_slice(&(1u64 << 32).to_le_bytes());
    assert_eq!(decoder_message(&bytes), format!("integer out of range at byte {}", at));
}

#[test]
fn reads_number_constants_as_bit_patterns() {
    let mut bytes = header_bytes();
    put_string(&mut bytes, "@test.lua");
    put_int(&mut bytes, 0);
    put_int(&mut bytes, 0);
    bytes.push(0);
    put_int(&mut bytes, 8);
    put_int(&mut bytes, 0);
    put_int(&mut bytes, 0);
    put_int(&mut bytes, 0);
    put_int(&mut bytes, 2);
    bytes.extend_from_slice(&1.5f64.to_le_bytes());
    bytes.extend_from_slice(&(-0.25f64).to_le_bytes());
    put_int(&mut bytes, 0);
    put_int(&mut bytes, 1);
    put_int(&mut bytes, 0);
    let proto = Decoder::new(&bytes).decode().unwrap();
    let bits: Vec<u64> = proto.constants.numbers.iter().map(|n| n.bits).collect();
    assert_eq!(bits, vec![1.5f64.to_bits(), (-0.25f64).to_bits()]);
    assert!(proto.constants.numbers.iter().all(|n| !n.single));
}

#[test]
fn describes_the_header() {
    assert_eq!(
        standard_header().describe(),
        "version: 40, endianess: Little; int: 4B; size_t: 4B; instruction: 4B; args: 32bits; opcode: 6bits; B: 9bits; Number: F64"
    );
    let mut header = standard_header();
    header.version = 0x0a;
    header.endianess = Endian::Big;
    header.number_type = NumberType::F32;
    assert!(header.describe().starts_with("version: 0a, endianess: Big;"));
    assert!(header.describe().ends_with("Number: F32"));
}

#[test]
fn decoder_reads_single_fields() {
    let bytes = [0x1B, b'L', b'u', b'a', 0x40, 0, 0x34, 0x12, 0x78, 0x56, 0x34, 0x12];
    let mut decoder = Decoder::new(&bytes);
    decoder.read_bytemark().unwrap();
    decoder.read_signature().unwrap();
    assert_eq!(decoder.read_version().unwrap(), 0x40);
    assert_eq!(decoder.read_endianess().unwrap(), Endian::Big);
    assert_eq!(decoder.read_u16().unwrap(), 0x1234);
    assert_eq!(decoder.read_u32().unwrap(), 0x1234_5678);
    assert_eq!(decoder.cursor, 12);
    assert!(decoder.read_u8().is_err());
    let mut decoder = Decoder::new(&bytes);
    decoder.header.endianess = Endian::Big;
    assert_eq!(decoder.read_u64().unwrap(), 0x1B4C_7561_4000_3412);
    assert_eq!(decoder.read_u8().unwrap(), 0x78);
}

#[test]
fn error_kinds_have_their_own_diagnostics() {
    assert_eq!(Error::new_decoder("bad").describe(), "decoder error: bad");
    assert_eq!(Error::new_parser("bad").describe(), "parser error: bad");
    assert_eq!(Error::new_io("no such file").describe(), "no such file");
    assert_eq!(Error::new_fmt("bad").describe(), "bad");
    assert_eq!(Error::new_decoder("bad").at_byte(7).describe(), "decoder error: bad at byte 7");
    assert_eq!(
        Error::new_parser("bad").at_instruction(12).describe(),
        "parser error: bad at instruction 12"
    );
    assert!(matches!(Error::new_io("x").at_byte(1).kind, ErrorKind::Io(m) if m == "x"));
}

#[test]
fn test_number_is_read_whether_it_matches_or_not() {
    let mut bytes = 1.0f64.to_le_bytes().to_vec();
    bytes.push(7);
    let mut decoder = Decoder::new(&bytes);
    decoder.header = standard_header();
    assert!(decoder.check_number_format().is_err());
    assert_eq!(decoder.cursor, 8);
    assert_eq!(decoder.read_u8().unwrap(), 7);
    let bytes = 3.14159265358979323846E8f64.to_le_bytes();
    let mut decoder = Decoder::new(&bytes);
    decoder.header = standard_header();
    assert_eq!(decoder.check_number_format().unwrap().bits, 0x41B2_B9B0_A15B_E612);
    assert_eq!(decoder.cursor, 8);
    let mut decoder = Decoder::new(&bytes[..5]);
    decoder.header = standard_header();
    assert!(decoder.check_number_format().is_err());
    assert_eq!(decoder.cursor, 0);
}
