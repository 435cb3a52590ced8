use lua_decompiler::errors::{Error, ErrorKind};
use lua_decompiler::lua40::ast::{CondOp, Expr, Lit, Node, Stmt, Syntax};
use lua_decompiler::lua40::lift::Ip;
use lua_decompiler::lua40::number::Number;
use lua_decompiler::lua40::opcode::Op;
use lua_decompiler::lua40::parser::{Namer, Parser};
use lua_decompiler::lua40::proto::{Constants, Local, Proto};
use lua_decompiler::lua40::scribe::Scribe;

fn proto_with(ops: Vec<Op>, strings: &[&str], numbers: &[f64], locals: Vec<Local>) -> Proto {
    Proto {
        code: vec![0; ops.len()],
        ops,
        source: "@test.lua".to_string(),
        line_defined: 0,
        num_params: 0,
        is_vararg: false,
        max_stack: 8,
        locals,
        constants: Constants {
            strings: strings.iter().map(|s| s.to_string()).collect(),
            numbers: numbers.iter().map(|n| Number { bits: n.to_bits(), single: false }).collect(),
            protos: vec![],
        },
        lines: vec![],
    }
}

fn lift(ops: Vec<Op>, strings: &[&str]) -> Result<Syntax, Error> {
    let proto = proto_with(ops, strings, &[], vec![]);
    let mut parser = Parser::new(&proto);
    let syntax = parser.parse();
    if syntax.is_ok() {
        assert_eq!(parser.stack_depth(), 0);
    }
    syntax
}

fn print(syntax: &Syntax) -> String {
    assert!(syntax.is_completed());
    let mut text = String::new();
    Scribe::new().fmt_syntax(&mut text, syntax).unwrap();
    text
}

fn source(ops: Vec<Op>, strings: &[&str]) -> String {
    print(&lift(ops, strings).unwrap())
}

fn parser_message(ops: Vec<Op>, strings: &[&str]) -> String {
    match lift(ops, strings) {
        Ok(_) => panic!("lifted"),
        Err(e) => match e.kind {
            ErrorKind::Parser(message) => message,
            other => panic!("wrong kind: {:?}", other),
        },
    }
}

#[test]
fn local_with_integer() {
    assert_eq!(source(vec![Op::PushInt { signed: 1 }, Op::End], &[]), "local a = 1\n");
}

#[test]
fn local_with_debug_name() {
    let locals = vec![Local { varname: "x".to_string(), startpc: 1, endpc: 2 }];
    let proto = proto_with(vec![Op::PushInt { signed: 1 }, Op::End], &[], &[], locals);
    let syntax = Parser::new(&proto).parse().unwrap();
    assert_eq!(print(&syntax), "local x = 1\n");
}

#[test]
fn local_with_sum() {
    let ops = vec![Op::PushInt { signed: 1 }, Op::PushInt { signed: 2 }, Op::Add, Op::End];
    assert_eq!(source(ops, &[]), "local a = 1 + 2\n");
}

#[test]
fn call_as_statement() {
    let ops = vec![
        Op::GetGlobal { string_id: 0 },
        Op::PushInt { signed: 1 },
        Op::Call { stack_offset: 0, results: 0 },
        Op::End,
    ];
    let syntax = lift(ops, &["print"]).unwrap();
    assert_eq!(syntax.root.nodes.len(), 1);
    assert!(matches!(&syntax.root.nodes[0], Node::Stmt(Stmt::Call(call)) if call.args.len() == 1));
    assert_eq!(print(&syntax), "print(1)\n");
}

#[test]
fn get_local_promotes_and_declares() {
    let ops = vec![
        Op::PushInt { signed: 1 },
        Op::GetLocal { offset: 0 },
        Op::PushInt { signed: 1 },
        Op::Add,
        Op::End,
    ];
    assert_eq!(source(ops, &[]), "local a = 1\nlocal b = a + 1\n");
    let ops = vec![
        Op::PushInt { signed: 1 },
        Op::GetLocal { offset: 0 },
        Op::AddI { signed: 1 },
        Op::End,
    ];
    assert_eq!(source(ops, &[]), "local a = 1\nlocal b = a + 1\n");
}

#[test]
fn promotion_of_a_declaration_changes_nothing() {
    let ops = vec![
        Op::PushInt { signed: 5 },
        Op::GetLocal { offset: 0 },
        Op::GetLocal { offset: 0 },
        Op::Add,
        Op::End,
    ];
    assert_eq!(source(ops, &[]), "local a = 5\nlocal b = a + a\n");
}

#[test]
fn if_with_comparison() {
    let ops = vec![
        Op::PushInt { signed: 1 },
        Op::PushInt { signed: 2 },
        Op::JumpLe { rel: 3 },
        Op::GetGlobal { string_id: 0 },
        Op::PushInt { signed: 3 },
        Op::Call { stack_offset: 0, results: 0 },
        Op::End,
    ];
    let syntax = lift(ops, &["print"]).unwrap();
    assert_eq!(syntax.root.nodes.len(), 1);
    assert!(matches!(&syntax.root.nodes[0], Node::Stmt(Stmt::If(_))));
    assert_eq!(print(&syntax), "if 1 <= 2 then\n    print(3)\nend\n");
}

#[test]
fn if_with_else_arm() {
    let ops = vec![
        Op::GetGlobal { string_id: 1 },
        Op::PushInt { signed: 0 },
        Op::JumpEq { rel: 4 },
        Op::GetGlobal { string_id: 0 },
        Op::PushInt { signed: 1 },
        Op::Call { stack_offset: 0, results: 0 },
        Op::Jump { rel: 3 },
        Op::GetGlobal { string_id: 0 },
        Op::PushInt { signed: 2 },
        Op::Call { stack_offset: 0, results: 0 },
        Op::End,
    ];
    assert_eq!(
        source(ops, &["print", "x"]),
        "if x == 0 then\n    print(1)\nelse\n    print(2)\nend\n"
    );
}

#[test]
fn while_with_back_edge() {
    let ops = vec![
        Op::GetGlobal { string_id: 1 },
        Op::PushInt { signed: 10 },
        Op::JumpLt { rel: 4 },
        Op::GetGlobal { string_id: 0 },
        Op::GetGlobal { string_id: 1 },
        Op::Call { stack_offset: 0, results: 0 },
        Op::Jump { rel: -7 },
        Op::End,
    ];
    assert_eq!(source(ops, &["print", "x"]), "while x < 10 do\n    print(x)\nend\n");
}

#[test]
fn nested_if_is_indented() {
    let ops = vec![
        Op::PushInt { signed: 1 },
        Op::PushInt { signed: 2 },
        Op::JumpNe { rel: 7 },
        Op::PushInt { signed: 3 },
        Op::PushInt { signed: 4 },
        Op::JumpGe { rel: 3 },
        Op::GetGlobal { string_id: 0 },
        Op::PushInt { signed: 5 },
        Op::Call { stack_offset: 0, results: 0 },
        Op::Pop { n: 0 },
        Op::End,
    ];
    assert_eq!(
        source(ops, &["print"]),
        "if 1 ~= 2 then\n    if 3 >= 4 then\n        print(5)\n    end\nend\n"
    );
}

#[test]
fn set_local_and_set_global_assign() {
    let ops = vec![
        Op::PushInt { signed: 1 },
        Op::PushInt { signed: 2 },
        Op::SetLocal { offset: 0 },
        Op::GetLocal { offset: 0 },
        Op::SetGlobal { string_id: 0 },
        Op::End,
    ];
    assert_eq!(source(ops, &["g"]), "local a = 1\na = 2\ng = a\n");
}

#[test]
fn arithmetic_is_parenthesized_as_operands() {
    let ops = vec![
        Op::PushInt { signed: 1 },
        Op::PushInt { signed: 2 },
        Op::Add,
        Op::PushInt { signed: 3 },
        Op::Mult,
        Op::Minus,
        Op::SetGlobal { string_id: 0 },
        Op::PushInt { signed: 8 },
        Op::PushInt { signed: 2 },
        Op::Div,
        Op::PushInt { signed: 2 },
        Op::Pow,
        Op::PushInt { signed: 1 },
        Op::Sub,
        Op::Not,
        Op::SetGlobal { string_id: 0 },
        Op::End,
    ];
    assert_eq!(source(ops, &["g"]), "g = -((1 + 2) * 3)\ng = not (((8 / 2) ^ 2) - 1)\n");
}

#[test]
fn concat_groups_to_the_right() {
    let ops = vec![
        Op::PushString { id: 0 },
        Op::PushString { id: 1 },
        Op::PushInt { signed: 3 },
        Op::Concat { n: 3 },
        Op::SetGlobal { string_id: 0 },
        Op::End,
    ];
    assert_eq!(source(ops, &["a", "b\n\"c\""]), "a = \"a\" .. (\"b\\n\\\"c\\\"\" .. 3)\n");
}

#[test]
fn call_with_results_is_an_expression() {
    let ops = vec![
        Op::GetGlobal { string_id: 0 },
        Op::PushInt { signed: 1 },
        Op::PushInt { signed: 2 },
        Op::Call { stack_offset: 0, results: 1 },
        Op::SetGlobal { string_id: 1 },
        Op::End,
    ];
    assert_eq!(source(ops, &["f", "g"]), "g = f(1, 2)\n");
}

#[test]
fn call_with_all_results_is_marked() {
    let ops = vec![
        Op::GetGlobal { string_id: 0 },
        Op::GetGlobal { string_id: 1 },
        Op::Call { stack_offset: 1, results: 255 },
        Op::Call { stack_offset: 0, results: 0 },
        Op::End,
    ];
    let syntax = lift(ops, &["f", "g"]).unwrap();
    match &syntax.root.nodes[0] {
        Node::Stmt(Stmt::Call(outer)) => {
            assert!(!outer.multret);
            assert!(matches!(&outer.args[0], Expr::Call(inner) if inner.multret));
        }
        other => panic!("{:?}", other),
    }
    assert_eq!(print(&syntax), "f(g())\n");
}

#[test]
fn return_takes_the_top_values() {
    let ops = vec![
        Op::PushInt { signed: 1 },
        Op::PushInt { signed: 2 },
        Op::Return { results: 2 },
        Op::End,
    ];
    assert_eq!(source(ops, &[]), "return 1, 2\n");
    assert_eq!(source(vec![Op::Return { results: 0 }, Op::End], &[]), "return\n");
}

#[test]
fn push_nil_fills_its_slots_with_one_literal() {
    let ops = vec![Op::PushNil { n: 2 }, Op::End];
    assert_eq!(source(ops, &[]), "local a = nil\n");
}

#[test]
fn pop_leaves_the_fragment_and_removes_the_slot() {
    let ops = vec![Op::PushInt { signed: 1 }, Op::Pop { n: 1 }, Op::End];
    let syntax = lift(ops, &[]).unwrap();
    assert!(matches!(&syntax.root.nodes[0], Node::Expr(Expr::Literal(Lit::Int(1)))));
    assert_eq!(print(&syntax), "1");
}

#[test]
fn number_constants_are_pushed_with_their_sign() {
    let proto = proto_with(
        vec![Op::PushNum { id: 0 }, Op::PushNegNum { id: 1 }, Op::End],
        &[],
        &[0.5, 1.25],
        vec![],
    );
    let syntax = Parser::new(&proto).parse().unwrap();
    assert_eq!(print(&syntax), "local a = 0.5\nlocal b = -1.25\n");
}

#[test]
fn instructions_after_end_are_not_read() {
    let ops = vec![Op::PushInt { signed: 1 }, Op::End, Op::Add];
    assert_eq!(source(ops, &[]), "local a = 1\n");
}

#[test]
fn parse_starts_afresh_each_time() {
    let proto = proto_with(vec![Op::PushInt { signed: 1 }, Op::End], &[], &[], vec![]);
    let mut parser = Parser::new(&proto);
    let first = print(&parser.parse().unwrap());
    let second = print(&parser.parse().unwrap());
    assert_eq!(first, second);
}

#[test]
fn stack_underflow_names_the_instruction() {
    assert_eq!(
        parser_message(vec![Op::PushInt { signed: 1 }, Op::Add, Op::End], &[]),
        "operand stack underflow at instruction 1"
    );
    assert_eq!(
        parser_message(vec![Op::GetLocal { offset: 0 }], &[]),
        "operand stack underflow at instruction 0"
    );
}

#[test]
fn missing_node_is_reported() {
    let ops = vec![Op::PushNil { n: 2 }, Op::Add, Op::End];
    assert_eq!(parser_message(ops, &[]), "no syntax node for bytecode at instruction 1");
}

#[test]
fn declaration_in_expression_position_is_reported() {
    let ops = vec![
        Op::PushInt { signed: 1 },
        Op::GetLocal { offset: 0 },
        Op::Pop { n: 1 },
        Op::PushInt { signed: 2 },
        Op::Add,
        Op::End,
    ];
    assert_eq!(parser_message(ops, &[]), "expected expression at instruction 4");
}

#[test]
fn jump_out_of_bounds_is_reported() {
    let ops = vec![
        Op::PushInt { signed: 1 },
        Op::PushInt { signed: 2 },
        Op::JumpLe { rel: 2 },
        Op::End,
    ];
    assert_eq!(parser_message(ops, &[]), "jump destination out of bounds at instruction 2");
    let ops = vec![
        Op::PushInt { signed: 1 },
        Op::PushInt { signed: 2 },
        Op::JumpLe { rel: -4 },
        Op::End,
    ];
    assert_eq!(parser_message(ops, &[]), "jump destination out of bounds at instruction 2");
}

#[test]
fn partial_left_at_the_end_is_reported() {
    let ops = vec![
        Op::PushInt { signed: 1 },
        Op::PushInt { signed: 2 },
        Op::JumpLe { rel: 1 },
        Op::End,
    ];
    assert_eq!(
        parser_message(ops, &[]),
        "partially built statement left at the end at instruction 3"
    );
}

#[test]
fn jump_outside_a_block_is_reported() {
    assert_eq!(
        parser_message(vec![Op::Jump { rel: 0 }, Op::End], &[]),
        "jump does not close a block at instruction 0"
    );
}

#[test]
fn constant_out_of_range_is_reported() {
    assert_eq!(
        parser_message(vec![Op::GetGlobal { string_id: 0 }, Op::End], &[]),
        "constant index out of range at instruction 0"
    );
}

#[test]
fn opcode_without_handler_is_reported() {
    assert_eq!(
        parser_message(vec![Op::GetTable, Op::End], &[]),
        "unsupported opcode at instruction 0"
    );
}

#[test]
fn statement_cannot_be_promoted() {
    let ops = vec![
        Op::GetGlobal { string_id: 0 },
        Op::Call { stack_offset: 0, results: 0 },
        Op::PushInt { signed: 1 },
        Op::PushInt { signed: 2 },
        Op::JumpLe { rel: 0 },
        Op::End,
    ];
    assert!(lift(ops, &["f"]).is_ok());
    let ops = vec![
        Op::PushInt { signed: 1 },
        Op::PushInt { signed: 2 },
        Op::JumpLe { rel: 2 },
        Op::PushInt { signed: 3 },
        Op::Pop { n: 1 },
        Op::PushNil { n: 1 },
        Op::End,
    ];
    assert_eq!(source(ops, &[]), "if 1 <= 2 then\n    3end\nlocal a = nil\n");
}

#[test]
fn names_run_through_the_alphabet() {
    let mut namer = Namer::new(b"abcdefghijklmnopqrstuvwxyz");
    let names: Vec<String> = (0..60).map(|_| namer.next()).collect();
    assert_eq!(names[0], "a");
    assert_eq!(names[25], "z");
    assert_eq!(names[26], "aa");
    assert_eq!(names[27], "ab");
    assert_eq!(names[51], "az");
    assert_eq!(names[52], "ba");
    let mut namer = Namer::new(b"ab");
    let names: Vec<String> = (0..7).map(|_| namer.next()).collect();
    assert_eq!(names, vec!["a", "b", "aa", "ab", "ba", "bb", "aaa"]);
}

#[test]
fn numeric_for_names_its_variable() {
    let ops = vec![
        Op::PushInt { signed: 1 },
        Op::PushInt { signed: 3 },
        Op::PushInt { signed: 1 },
        Op::ForPrep { rel: 3 },
        Op::GetGlobal { string_id: 0 },
        Op::GetLocal { offset: 0 },
        Op::Call { stack_offset: 3, results: 0 },
        Op::ForLoop { rel: -4 },
        Op::End,
    ];
    assert_eq!(source(ops, &["print"]), "for a = 1, 3, 1 do\n    print(a)\nend\n");
}

#[test]
fn numeric_for_hides_its_limit_and_step() {
    let ops = vec![
        Op::PushInt { signed: 1 },
        Op::PushInt { signed: 3 },
        Op::PushInt { signed: 1 },
        Op::ForPrep { rel: 1 },
        Op::GetLocal { offset: 1 },
        Op::ForLoop { rel: -2 },
        Op::End,
    ];
    assert_eq!(
        parser_message(ops, &[]),
        "stack slot of a loop holds no variable at instruction 4"
    );
}

#[test]
fn generic_for_names_key_and_value() {
    let ops = vec![
        Op::GetGlobal { string_id: 1 },
        Op::LForPrep { rel: 4 },
        Op::GetGlobal { string_id: 0 },
        Op::GetLocal { offset: 2 },
        Op::GetLocal { offset: 3 },
        Op::Call { stack_offset: 4, results: 0 },
        Op::LForLoop { rel: -5 },
        Op::End,
    ];
    assert_eq!(source(ops, &["print", "t"]), "for a, b in t do\n    print(a, b)\nend\n");
}

#[test]
fn for_loop_uses_debug_names_of_the_body() {
    let locals = vec![
        Local { varname: "i".to_string(), startpc: 4, endpc: 7 },
        Local { varname: "(limit)".to_string(), startpc: 4, endpc: 7 },
        Local { varname: "(step)".to_string(), startpc: 4, endpc: 7 },
    ];
    let ops = vec![
        Op::PushInt { signed: 1 },
        Op::PushInt { signed: 3 },
        Op::PushInt { signed: 1 },
        Op::ForPrep { rel: 3 },
        Op::GetGlobal { string_id: 0 },
        Op::GetLocal { offset: 0 },
        Op::Call { stack_offset: 3, results: 0 },
        Op::ForLoop { rel: -4 },
        Op::End,
    ];
    let proto = proto_with(ops, &["print"], &[], locals);
    let syntax = Parser::new(&proto).parse().unwrap();
    assert_eq!(print(&syntax), "for i = 1, 3, 1 do\n    print(i)\nend\n");
}

#[test]
fn for_loop_needs_its_slots() {
    assert_eq!(
        parser_message(vec![Op::PushInt { signed: 1 }, Op::ForPrep { rel: 0 }], &[]),
        "operand stack underflow at instruction 1"
    );
    assert_eq!(
        parser_message(vec![Op::ForLoop { rel: 0 }], &[]),
        "operand stack underflow at instruction 0"
    );
    assert_eq!(
        parser_message(vec![Op::LForPrep { rel: 0 }], &[]),
        "operand stack underflow at instruction 0"
    );
}

#[test]
fn locals_after_a_loop_draw_the_next_names() {
    let ops = vec![
        Op::PushInt { signed: 7 },
        Op::PushInt { signed: 1 },
        Op::PushInt { signed: 3 },
        Op::PushInt { signed: 1 },
        Op::ForPrep { rel: 0 },
        Op::ForLoop { rel: -1 },
        Op::PushInt { signed: 8 },
        Op::End,
    ];
    assert_eq!(source(ops, &[]), "local b = 7\nfor a = 1, 3, 1 do\nend\nlocal c = 8\n");
}

#[test]
fn statement_in_a_slot_cannot_be_promoted() {
    let ops = vec![
        Op::PushInt { signed: 1 },
        Op::PushInt { signed: 3 },
        Op::PushInt { signed: 1 },
        Op::ForPrep { rel: 0 },
        Op::GetLocal { offset: 0 },
        Op::End,
    ];
    assert_eq!(
        parser_message(ops, &[]),
        "a statement cannot be turned into a local variable declaration at instruction 4"
    );
}

#[test]
fn stack_is_empty_after_every_parse() {
    let proto = proto_with(
        vec![Op::PushInt { signed: 1 }, Op::PushNil { n: 5 }, Op::PushInt { signed: 2 }, Op::End],
        &[],
        &[],
        vec![],
    );
    let mut parser = Parser::new(&proto);
    assert_eq!(parser.stack_depth(), 0);
    let syntax = parser.parse().unwrap();
    assert_eq!(parser.stack_depth(), 0);
    assert_eq!(syntax.root.nodes.len(), 3);
    assert!(syntax.root.nodes.iter().all(|node| node.is_complete()));
}

#[test]
fn pop_of_more_slots_than_there_are_is_an_underflow() {
    assert_eq!(
        parser_message(vec![Op::Pop { n: 1 }, Op::End], &[]),
        "operand stack underflow at instruction 0"
    );
    assert_eq!(
        parser_message(vec![Op::PushInt { signed: 1 }, Op::Pop { n: 2 }, Op::End], &[]),
        "operand stack underflow at instruction 1"
    );
    let proto = proto_with(vec![Op::PushInt { signed: 1 }, Op::Pop { n: 2 }], &[], &[], vec![]);
    let mut parser = Parser::new(&proto);
    parser.parse_push_int(Ip(0), 1).unwrap();
    assert!(parser.parse_pop(2).is_err());
    assert_eq!(parser.stack_depth(), 1);
    parser.parse_pop(1).unwrap();
    assert_eq!(parser.stack_depth(), 0);
    parser.parse_pop(0).unwrap();
}

#[test]
fn promotion_happens_once() {
    let proto = proto_with(vec![Op::PushInt { signed: 1 }, Op::End], &[], &[], vec![]);
    let mut parser = Parser::new(&proto);
    parser.parse_push_int(Ip(0), 1).unwrap();
    assert!(parser.promote_local_var(0, Ip(0), 1).unwrap());
    assert_eq!(parser.get_local_var_name(0).unwrap(), "a");
    assert!(!parser.promote_local_var(0, Ip(0), 1).unwrap());
    assert!(!parser.promote_slot(0, 1).unwrap());
    assert_eq!(parser.get_local_var_name(0).unwrap(), "a");
    assert_eq!(parser.stack_depth(), 1);
    // The next name is still the second one.
    parser.parse_push_int(Ip(1), 2).unwrap();
    assert!(parser.promote_local_var(1, Ip(1), 1).unwrap());
    assert_eq!(parser.get_local_var_name(1).unwrap(), "b");
}

#[test]
fn promotion_takes_the_debug_name_of_the_slot() {
    let locals = vec![
        Local { varname: "gone".to_string(), startpc: 0, endpc: 1 },
        Local { varname: "x".to_string(), startpc: 1, endpc: 3 },
        Local { varname: "y".to_string(), startpc: 2, endpc: 3 },
    ];
    let ops = vec![Op::PushInt { signed: 1 }, Op::PushInt { signed: 2 }, Op::End];
    let proto = proto_with(ops, &[], &[], locals);
    let mut parser = Parser::new(&proto);
    parser.parse_push_int(Ip(0), 1).unwrap();
    parser.parse_push_int(Ip(1), 2).unwrap();
    assert!(parser.promote_slot(1, 2).unwrap());
    assert!(parser.promote_slot(0, 2).unwrap());
    assert_eq!(parser.get_local_var_name(0).unwrap(), "x");
    assert_eq!(parser.get_local_var_name(1).unwrap(), "y");
}

#[test]
fn promotion_fails_on_partials_and_statements() {
    let ops = vec![
        Op::PushInt { signed: 1 },
        Op::PushInt { signed: 3 },
        Op::PushInt { signed: 1 },
        Op::ForPrep { rel: 1 },
        Op::End,
        Op::End,
    ];
    let proto = proto_with(ops, &[], &[], vec![]);
    let mut parser = Parser::new(&proto);
    parser.parse_push_int(Ip(0), 1).unwrap();
    parser.parse_push_int(Ip(1), 3).unwrap();
    parser.parse_push_int(Ip(2), 1).unwrap();
    parser.parse_for_prep(Ip(3), 1).unwrap();
    // The head of the loop is a partial: it cannot be promoted.
    let e = parser.promote_local_var(0, Ip(3), 4).unwrap_err();
    assert!(matches!(&e.kind, ErrorKind::Parser(m)
        if m == "a partially built statement cannot be turned into a local variable declaration"));
    // Reading the slot as a local leaves the head alone and names the variable.
    assert!(!parser.promote_slot(0, 4).unwrap());
    assert_eq!(parser.get_local_var_name(0).unwrap(), "a");
    // The next made-up name has not been drawn by the failure.
    parser.end_block().unwrap();
    let e = parser.promote_local_var(0, Ip(3), 5).unwrap_err();
    assert!(matches!(&e.kind, ErrorKind::Parser(m)
        if m == "a statement cannot be turned into a local variable declaration"));
    assert_eq!(parser.stack_depth(), 3);
}

#[test]
fn refused_conditional_jump_changes_nothing() {
    let ops = vec![
        Op::PushInt { signed: 1 },
        Op::PushInt { signed: 2 },
        Op::JumpLe { rel: 5 },
        Op::End,
    ];
    let proto = proto_with(ops, &[], &[], vec![]);
    let mut parser = Parser::new(&proto);
    parser.parse_push_int(Ip(0), 1).unwrap();
    parser.parse_push_int(Ip(1), 2).unwrap();
    let e = parser.parse_cond_jump(Ip(2), CondOp::Le, 5).unwrap_err();
    assert!(matches!(&e.kind, ErrorKind::Parser(m) if m == "jump destination out of bounds"));
    assert_eq!(parser.stack_depth(), 2);
    assert!(parser.parse_cond_jump(Ip(2), CondOp::Le, -4).is_err());
    assert_eq!(parser.stack_depth(), 2);
    // The operands are still there to be taken.
    parser.parse_cond_jump(Ip(2), CondOp::Le, 1).unwrap();
    assert_eq!(parser.stack_depth(), 0);
}

#[test]
fn failed_call_consumes_nothing() {
    let ops = vec![
        Op::GetGlobal { string_id: 0 },
        Op::PushNil { n: 2 },
        Op::Call { stack_offset: 0, results: 1 },
        Op::End,
    ];
    let proto = proto_with(ops, &["f"], &[], vec![]);
    let mut parser = Parser::new(&proto);
    parser.parse_get_global(Ip(0), 0).unwrap();
    parser.parse_push_nil(Ip(1), 2).unwrap();
    // Both arguments point to the one nil: the second cannot be taken.
    let e = parser.parse_call(Ip(2), 0, 1).unwrap_err();
    assert!(matches!(&e.kind, ErrorKind::Parser(m) if m == "no syntax node for bytecode"));
    assert_eq!(parser.stack_depth(), 3);
    // The callee and the first argument are back in their slots.
    parser.parse_pop(1).unwrap();
    parser.parse_call(Ip(2), 0, 0).unwrap();
    assert_eq!(parser.stack_depth(), 0);
}

#[test]
fn failed_assignment_takes_its_promotion_back() {
    let ops = vec![Op::PushInt { signed: 1 }, Op::SetLocal { offset: 0 }, Op::End];
    let proto = proto_with(ops, &[], &[], vec![]);
    let mut parser = Parser::new(&proto);
    parser.parse_push_int(Ip(0), 1).unwrap();
    // The slot would be assigned to itself: its value is a declaration by then.
    let e = parser.parse_set_local(Ip(1), 0).unwrap_err();
    assert!(matches!(&e.kind, ErrorKind::Parser(m) if m == "expected expression"));
    assert_eq!(parser.stack_depth(), 1);
    // The expression is still there to be promoted, under the first name.
    assert!(parser.promote_local_var(0, Ip(0), 1).unwrap());
    assert_eq!(parser.get_local_var_name(0).unwrap(), "a");
}

#[test]
fn failed_loop_opening_consumes_nothing() {
    let ops = vec![Op::PushInt { signed: 1 }, Op::PushNil { n: 2 }, Op::ForPrep { rel: 0 }, Op::End];
    let proto = proto_with(ops, &[], &[], vec![]);
    let mut parser = Parser::new(&proto);
    parser.parse_push_int(Ip(0), 1).unwrap();
    parser.parse_push_nil(Ip(1), 2).unwrap();
    assert!(parser.parse_for_prep(Ip(2), 0).is_err());
    assert_eq!(parser.stack_depth(), 3);
    assert!(parser.parse_concat(Ip(2), 3).is_err());
    assert!(parser.parse_return(Ip(2), 3).is_err());
    assert!(parser.parse_binary_op(Ip(2), lua_decompiler::lua40::ast::BinOp::Add).is_err());
    assert_eq!(parser.stack_depth(), 3);
    parser.parse_pop(1).unwrap();
    parser.parse_return(Ip(2), 2).unwrap();
    assert_eq!(parser.stack_depth(), 0);
}

#[test]
fn set_global_checks_the_constant_before_it_takes_the_value() {
    let ops = vec![Op::PushInt { signed: 1 }, Op::SetGlobal { string_id: 3 }, Op::End];
    let proto = proto_with(ops, &["g"], &[], vec![]);
    let mut parser = Parser::new(&proto);
    parser.parse_push_int(Ip(0), 1).unwrap();
    let e = parser.parse_set_global(Ip(1), 3).unwrap_err();
    assert!(matches!(&e.kind, ErrorKind::Parser(m) if m == "constant index out of range"));
    assert_eq!(parser.stack_depth(), 1);
    parser.parse_set_global(Ip(1), 0).unwrap();
    assert_eq!(parser.stack_depth(), 0);
}
