use lua_decompiler::lua40::{Decoder, Parser, Proto, Scribe};

const BIAS: i64 = (1 << 25) - 1;

fn put_int(bytes: &mut Vec<u8>, v: u32) {
    bytes.extend_from_slice(&v.to_le_bytes());
}

fn put_string(bytes: &mut Vec<u8>, s: &str) {
    put_int(bytes, s.len() as u32 + 1);
    bytes.extend_from_slice(s.as_bytes());
    bytes.push(0);
}

fn op_u(opcode: u32, u: u32) -> u32 {
    (u << 6) | opcode
}

fn op_s(opcode: u32, s: i64) -> u32 {
    (((s + BIAS) as u32) << 6) | opcode
}

fn op_ab(opcode: u32, a: u32, b: u32) -> u32 {
    (a << 15) | (b << 6) | opcode
}

fn function(strings: &[&str], numbers: &[f64], children: &[Vec<u8>], code: &[u32]) -> Vec<u8> {
    let mut bytes = Vec::new();
    put_string(&mut bytes, "@test.lua");
    put_int(&mut bytes, 0);
    put_int(&mut bytes, 0);
    bytes.push(0);
    put_int(&mut bytes, 8);
    put_int(&mut bytes, 0);
    put_int(&mut bytes, 0);
    put_int(&mut bytes, strings.len() as u32);
    for s in strings {
        put_string(&mut bytes, s);
    }
    put_int(&mut bytes, numbers.len() as u32);
    for n in numbers {
        bytes.extend_from_slice(&n.to_le_bytes());
    }
    put_int(&mut bytes, children.len() as u32);
    for child in children {
        bytes.extend_from_slice(child);
    }
    put_int(&mut bytes, code.len() as u32);
    for word in code {
        put_int(&mut bytes, *word);
    }
    bytes
}

fn chunk(main: Vec<u8>) -> Vec<u8> {
    let mut bytes = vec![0x1B, b'L', b'u', b'a', 0x40, 1, 4, 4, 4, 32, 6, 9, 8];
    bytes.extend_from_slice(&3.14159265358979323846E8f64.to_le_bytes());
    bytes.extend_from_slice(&main);
    bytes
}

fn recover(proto: &Proto) -> String {
    let mut parser = Parser::new(proto);
    let syntax = parser.parse().unwrap();
    assert_eq!(parser.stack_depth(), 0);
    assert!(syntax.is_completed());
    let mut text = String::new();
    Scribe::new().fmt_syntax(&mut text, &syntax).unwrap();
    text
}

#[test]
fn chunk_with_one_local() {
    let bytes = chunk(function(&[], &[], &[], &[op_s(6, 1), 0]));
    let proto = Decoder::new(&bytes).decode().unwrap();
    assert_eq!(recover(&proto), "local a = 1\n");
}

#[test]
fn chunk_with_a_condition() {
    let code = [op_s(6, 1), op_s(6, 2), op_s(35, 3), op_u(12, 0), op_s(6, 3), op_ab(2, 0, 0), 0];
    let bytes = chunk(function(&["print"], &[], &[], &code));
    let proto = Decoder::new(&bytes).decode().unwrap();
    assert_eq!(recover(&proto), "if 1 <= 2 then\n    print(3)\nend\n");
}

#[test]
fn chunk_with_a_nested_prototype() {
    let child = function(&["print"], &[], &[], &[op_u(12, 0), op_s(6, 7), op_ab(2, 0, 0), 0]);
    let bytes = chunk(function(&[], &[], &[child], &[op_s(6, 1), op_s(6, 2), 23, 0]));
    let proto = Decoder::new(&bytes).decode().unwrap();
    assert_eq!(proto.constants.protos.len(), 1);
    assert_eq!(recover(&proto), "local a = 1 + 2\n");
    assert_eq!(recover(&proto.constants.protos[0]), "print(7)\n");
    assert_eq!(recover(&proto), "local a = 1 + 2\n");
}

#[test]
fn chunk_with_string_and_number_constants() {
    let code = [op_u(7, 0), op_u(19, 1), op_u(8, 0), op_u(9, 1), 23, op_u(19, 1), 0];
    let bytes = chunk(function(&["hello world", "g"], &[0.25, 3.0], &[], &code));
    let proto = Decoder::new(&bytes).decode().unwrap();
    let text = recover(&proto);
    assert_eq!(text, "g = \"hello world\"\ng = 0.25 + -3\n");
    assert!(text.contains("hello world"));
}
