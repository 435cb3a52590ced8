use lua_decompiler::errors::ErrorKind;
use lua_decompiler::lua40::ast::{
    Assign, BinExpr, BinOp, Block, Call, CondExpr, CondOp, Expr, ForBlock, ForHead, Ident,
    IfBlock, IfHead, Lit, LocalVar, Node, Partial, Stmt, Syntax, UnExpr, UnOp, WhileBlock,
};
use lua_decompiler::lua40::number::Number;
use lua_decompiler::lua40::scribe::Scribe;

fn lit_int(value: i32) -> Expr {
    Expr::Literal(Lit::Int(value))
}

fn access(name: &str) -> Expr {
    Expr::Access(Ident::new(name))
}

fn syntax(nodes: Vec<Node>) -> Syntax {
    Syntax { root: Block { nodes }, debug: () }
}

fn print(nodes: Vec<Node>) -> String {
    let tree = syntax(nodes);
    assert!(tree.is_completed());
    let mut text = String::new();
    Scribe::new().fmt_syntax(&mut text, &tree).unwrap();
    text
}

fn call(name: &str, args: Vec<Expr>) -> Call {
    Call { name: access(name), args, multret: false }
}

#[test]
fn writes_local_and_assignment() {
    let nodes = vec![
        Node::Stmt(Stmt::LocalVar(LocalVar { name: Ident::new("x"), rhs: lit_int(-7) })),
        Node::Stmt(Stmt::Assign(Box::new(Assign { name: Ident::new("y"), rhs: access("x") }))),
    ];
    assert_eq!(print(nodes), "local x = -7\ny = x\n");
}

#[test]
fn appends_to_what_is_there() {
    let tree = syntax(vec![Node::Stmt(Stmt::Return(vec![]))]);
    let mut text = String::from("-- head\n");
    Scribe::new().fmt_syntax(&mut text, &tree).unwrap();
    assert_eq!(text, "-- head\nreturn\n");
}

#[test]
fn writes_literals() {
    let nodes = vec![
        Node::Stmt(Stmt::Return(vec![
            Expr::Literal(Lit::Nil),
            lit_int(i32::MIN),
            Expr::Literal(Lit::Num(Number { bits: 2.5f64.to_bits(), single: false })),
            Expr::Literal(Lit::Str("a\"b\\c\nd\te\r\u{1}\u{7f}é".to_string())),
        ])),
    ];
    assert_eq!(
        print(nodes),
        "return nil, -2147483648, 2.5, \"a\\\"b\\\\c\\nd\\te\\r\\001\\127é\"\n"
    );
}

#[test]
fn writes_calls_with_their_arguments() {
    let nodes = vec![
        Node::Stmt(Stmt::Call(Box::new(call("f", vec![])))),
        Node::Stmt(Stmt::Call(Box::new(call(
            "g",
            vec![lit_int(1), Expr::Call(Box::new(call("h", vec![lit_int(2), lit_int(3)])))],
        )))),
    ];
    assert_eq!(print(nodes), "f()\ng(1, h(2, 3))\n");
}

#[test]
fn writes_nested_blocks_with_four_spaces_a_level() {
    let inner = Stmt::While(WhileBlock {
        head: CondExpr::Unary { op: UnOp::Not, rhs: access("done") },
        body: Block { nodes: vec![Node::Stmt(Stmt::Call(Box::new(call("step", vec![]))))] },
    });
    let nodes = vec![Node::Stmt(Stmt::Block(Block {
        nodes: vec![
            Node::Stmt(Stmt::If(IfBlock {
                head: CondExpr::Binary { op: CondOp::Gt, lhs: access("a"), rhs: lit_int(0) },
                then_: Block { nodes: vec![Node::Stmt(inner)] },
                else_: Some(Block { nodes: vec![Node::Stmt(Stmt::Return(vec![lit_int(1)]))] }),
            })),
        ],
    }))];
    assert_eq!(
        print(nodes),
        "do\n    if a > 0 then\n        while not done do\n            step()\n        end\n    else\n        return 1\n    end\nend\n"
    );
}

#[test]
fn writes_both_kinds_of_for() {
    let nodes = vec![
        Node::Stmt(Stmt::For(ForBlock {
            head: ForHead::Numeric {
                var: Ident::new("i"),
                start: lit_int(1),
                limit: lit_int(10),
                step: lit_int(2),
            },
            body: Block { nodes: vec![] },
        })),
        Node::Stmt(Stmt::For(ForBlock {
            head: ForHead::Generic {
                key: Ident::new("k"),
                value: Ident::new("v"),
                table: access("t"),
            },
            body: Block { nodes: vec![Node::Stmt(Stmt::Call(Box::new(call("f", vec![access("k")]))))] },
        })),
    ];
    assert_eq!(print(nodes), "for i = 1, 10, 2 do\nend\nfor k, v in t do\n    f(k)\nend\n");
}

#[test]
fn writes_every_operator() {
    let ops = [
        (BinOp::Add, "+"),
        (BinOp::Sub, "-"),
        (BinOp::Mult, "*"),
        (BinOp::Div, "/"),
        (BinOp::Pow, "^"),
        (BinOp::Concat, ".."),
    ];
    for (op, sign) in ops {
        let nodes = vec![Node::Expr(Expr::Binary(Box::new(BinExpr { op, lhs: lit_int(1), rhs: lit_int(2) })))];
        assert_eq!(print(nodes), format!("1 {} 2", sign));
    }
    let conds = [
        (CondOp::Ne, "~="),
        (CondOp::Eq, "=="),
        (CondOp::Lt, "<"),
        (CondOp::Le, "<="),
        (CondOp::Gt, ">"),
        (CondOp::Ge, ">="),
    ];
    for (op, sign) in conds {
        let nodes = vec![Node::Stmt(Stmt::If(IfBlock {
            head: CondExpr::Binary { op, lhs: lit_int(1), rhs: lit_int(2) },
            then_: Block { nodes: vec![] },
            else_: None,
        }))];
        assert_eq!(print(nodes), format!("if 1 {} 2 then\nend\n", sign));
    }
    let nodes = vec![Node::Expr(Expr::Unary(Box::new(UnExpr {
        op: UnOp::Minus,
        rhs: Expr::Unary(Box::new(UnExpr { op: UnOp::Minus, rhs: access("x") })),
    })))];
    assert_eq!(print(nodes), "-(-x)");
}

#[test]
fn refuses_a_number_that_is_not_finite() {
    let tree = syntax(vec![Node::Stmt(Stmt::Return(vec![Expr::Literal(Lit::Num(Number {
        bits: f64::INFINITY.to_bits(),
        single: false,
    }))]))]);
    let mut text = String::new();
    let e = Scribe::new().fmt_syntax(&mut text, &tree).unwrap_err();
    assert!(matches!(&e.kind, ErrorKind::Fmt(message) if message == "number has no decimal notation"));
    assert_eq!(e.describe(), "number has no decimal notation");
}

#[test]
fn tells_a_partial_from_a_completed_tree() {
    let head = IfHead {
        expr: CondExpr::Binary { op: CondOp::Le, lhs: lit_int(1), rhs: lit_int(2) },
        then_: None,
    };
    let partial = Node::Partial(Partial::IfHead(Box::new(head)));
    assert!(partial.is_partial());
    assert!(!partial.is_complete());
    assert!(partial.into_partial().is_some());
    let head = IfHead {
        expr: CondExpr::Binary { op: CondOp::Le, lhs: lit_int(1), rhs: lit_int(2) },
        then_: None,
    };
    let nested = syntax(vec![Node::Stmt(Stmt::Block(Block {
        nodes: vec![Node::Partial(Partial::IfHead(Box::new(head)))],
    }))]);
    assert!(!nested.is_completed());
    assert!(nested.root.nodes[0].is_complete());
    let plain = Node::Expr(lit_int(1));
    assert!(!plain.is_local_var());
    assert!(plain.into_expr().is_some());
    let local = Node::Stmt(Stmt::LocalVar(LocalVar { name: Ident::new("a"), rhs: lit_int(1) }));
    assert!(local.is_local_var());
    assert!(local.into_expr().is_none());
    assert_eq!(Ident::new("abc").as_str(), "abc");
}
