//! Code generator for Lua syntax.
use vstd::prelude::*;
use vstd::string::{StrSliceExecFns, StringExecFns};
use crate::errors::{Error, ErrorView};
use crate::lua40::ast::{
    completed, node_completed, Assign, BinExpr, BinOp, Block, Call, CondExpr, CondOp, CondView,
    Expr, ExprView, ForBlock, ForHead, ForHeadView, Ident, IfBlock, Lit, LitView, LocalVar, Node,
    NodeView, Stmt, StmtView, Syntax, UnExpr, UnOp, WhileBlock, exprs_view,
};
use crate::text::{dec_int, digit_char, digit_str, push_char, push_dec_int};

verus! {

/// The sign that stands for a binary operator.
pub open spec fn bin_symbol(op: BinOp) -> Seq<char> {
    match op {
        BinOp::Add => "+"@,
        BinOp::Sub => "-"@,
        BinOp::Mult => "*"@,
        BinOp::Div => "/"@,
        BinOp::Pow => "^"@,
        BinOp::Concat => ".."@,
    }
}

/// What stands in front of the operand of a unary operator.
pub open spec fn un_symbol(op: UnOp) -> Seq<char> {
    match op {
        UnOp::Minus => "-"@,
        UnOp::Not => "not "@,
    }
}

/// The sign that stands for a conditional operator.
pub open spec fn cond_symbol(op: CondOp) -> Seq<char> {
    match op {
        CondOp::Ne => "~="@,
        CondOp::Eq => "=="@,
        CondOp::Lt => "<"@,
        CondOp::Le => "<="@,
        CondOp::Gt => ">"@,
        CondOp::Ge => ">="@,
    }
}

/// The indentation of a line at the given depth: four spaces for each level.
pub open spec fn indent(level: nat) -> Seq<char>
    decreases level,
{
    if level == 0 {
        Seq::empty()
    } else {
        indent((level - 1) as nat) + "    "@
    }
}

/// The depth of what is nested in a statement at `level`. It stops growing
/// at the highest depth that a scribe can hold.
pub open spec fn deeper(level: nat) -> nat {
    if level < u32::MAX {
        level + 1
    } else {
        level
    }
}

/// How a character stands between the quotes of a string literal: the
/// quote and the backslash behind a backslash, line feed, carriage return
/// and tabulator as `\n`, `\r` and `\t`, any other control character as a
/// backslash and its code in three decimal digits, and any other character
/// as it is.
pub open spec fn escape(c: char) -> Seq<char> {
    if c == '"' {
        seq!['\\', '"']
    } else if c == '\\' {
        seq!['\\', '\\']
    } else if c == '\n' {
        seq!['\\', 'n']
    } else if c == '\r' {
        seq!['\\', 'r']
    } else if c == '\t' {
        seq!['\\', 't']
    } else if (c as u32) < 32 || c as u32 == 127 {
        seq![
            '\\',
            digit_char((c as u32 / 100) as nat),
            digit_char((c as u32 / 10 % 10) as nat),
            digit_char((c as u32 % 10) as nat),
        ]
    } else {
        seq![c]
    }
}

/// The first `n` characters of `s`, each as it stands in a string literal.
pub open spec fn escaped(s: Seq<char>, n: nat) -> Seq<char>
    decreases n,
{
    if n == 0 || n > s.len() {
        Seq::empty()
    } else {
        escaped(s, (n - 1) as nat) + escape(s[n - 1])
    }
}

/// The string literal that stands for `s`.
pub open spec fn quoted(s: Seq<char>) -> Seq<char> {
    seq!['"'] + escaped(s, s.len()) + seq!['"']
}

/// Whether a literal can be written down: every one but a number that is
/// not finite.
pub open spec fn lit_renderable(lit: LitView) -> bool {
    match lit {
        LitView::Num(n) => n.finite(),
        _ => true,
    }
}

/// The text of a literal: `nil`, an integer as its decimal numeral, a
/// number in its exact decimal notation, a string between quotes.
pub open spec fn render_lit(lit: LitView) -> Seq<char> {
    match lit {
        LitView::Nil => "nil"@,
        LitView::Int(v) => dec_int(v as int),
        LitView::Num(n) => n.text(),
        LitView::Str(s) => quoted(s),
    }
}

/// Whether every literal in the expression can be written down.
pub open spec fn expr_renderable(e: ExprView) -> bool
    decreases e,
{
    match e {
        ExprView::Access(_) => true,
        ExprView::Literal(lit) => lit_renderable(lit),
        ExprView::Unary { rhs, .. } => expr_renderable(*rhs),
        ExprView::Binary { lhs, rhs, .. } => expr_renderable(*lhs) && expr_renderable(*rhs),
        ExprView::Call { name, args, .. } => expr_renderable(*name) && forall|i: int|
            0 <= i < args.len() ==> expr_renderable(#[trigger] args[i]),
    }
}

/// Whether every literal in the expressions can be written down.
pub open spec fn exprs_renderable(exprs: Seq<ExprView>) -> bool {
    forall|i: int| 0 <= i < exprs.len() ==> expr_renderable(#[trigger] exprs[i])
}

/// The text of an expression.
pub open spec fn render_expr(e: ExprView) -> Seq<char>
    decreases e, 0nat,
{
    match e {
        ExprView::Access(name) => name,
        ExprView::Literal(lit) => render_lit(lit),
        ExprView::Unary { op, rhs } => un_symbol(op) + render_operand(*rhs),
        ExprView::Binary { op, lhs, rhs } => render_operand(*lhs) + " "@ + bin_symbol(op) + " "@
            + render_operand(*rhs),
        ExprView::Call { name, args, .. } => render_operand(*name) + "("@ + render_args(
            args,
            args.len(),
        ) + ")"@,
    }
}

/// The text of an expression as an operand: an operation stands in
/// parentheses, anything else as it is.
pub open spec fn render_operand(e: ExprView) -> Seq<char>
    decreases e, 1nat,
{
    match e {
        ExprView::Unary { .. } => "("@ + render_expr(e) + ")"@,
        ExprView::Binary { .. } => "("@ + render_expr(e) + ")"@,
        _ => render_expr(e),
    }
}

/// The text of the first `n` of `args`, with `, ` between them.
pub open spec fn render_args(args: Seq<ExprView>, n: nat) -> Seq<char>
    decreases args, n,
{
    if n == 0 || n > args.len() {
        Seq::empty()
    } else if n == 1 {
        render_expr(args[0])
    } else {
        render_args(args, (n - 1) as nat) + ", "@ + render_expr(args[n - 1])
    }
}

/// Whether every literal in the condition can be written down.
pub open spec fn cond_renderable(c: CondView) -> bool {
    match c {
        CondView::Unary { rhs, .. } => expr_renderable(rhs),
        CondView::Binary { lhs, rhs, .. } => expr_renderable(lhs) && expr_renderable(rhs),
    }
}

/// The text of a condition.
pub open spec fn render_cond(c: CondView) -> Seq<char> {
    match c {
        CondView::Unary { op, rhs } => un_symbol(op) + render_operand(rhs),
        CondView::Binary { op, lhs, rhs } => render_operand(lhs) + " "@ + cond_symbol(op) + " "@
            + render_operand(rhs),
    }
}

/// Whether every literal in the head of a `for` can be written down.
pub open spec fn for_head_renderable(h: ForHeadView) -> bool {
    match h {
        ForHeadView::Numeric { start, limit, step, .. } => expr_renderable(start)
            && expr_renderable(limit) && expr_renderable(step),
        ForHeadView::Generic { table, .. } => expr_renderable(table),
    }
}

/// The text between `for` and `do`.
pub open spec fn render_for_head(h: ForHeadView) -> Seq<char> {
    match h {
        ForHeadView::Numeric { var, start, limit, step } => var + " = "@ + render_expr(start)
            + ", "@ + render_expr(limit) + ", "@ + render_expr(step),
        ForHeadView::Generic { key, value, table } => key + ", "@ + value + " in "@ + render_expr(
            table,
        ),
    }
}

/// Whether every literal in the nodes can be written down.
pub open spec fn nodes_renderable(nodes: Seq<NodeView>) -> bool
    decreases nodes,
{
    forall|i: int| 0 <= i < nodes.len() ==> node_renderable(#[trigger] nodes[i])
}

/// Whether every literal in the node can be written down.
pub open spec fn node_renderable(node: NodeView) -> bool
    decreases node,
{
    match node {
        NodeView::Partial(_) => true,
        NodeView::Expr(e) => expr_renderable(e),
        NodeView::Stmt(StmtView::LocalVar { rhs, .. }) => expr_renderable(rhs),
        NodeView::Stmt(StmtView::Assign { rhs, .. }) => expr_renderable(rhs),
        NodeView::Stmt(StmtView::Call { name, args, .. }) => expr_renderable(name)
            && exprs_renderable(args),
        NodeView::Stmt(StmtView::Block(body)) => nodes_renderable(body),
        NodeView::Stmt(StmtView::If { head, then_, else_ }) => cond_renderable(head)
            && nodes_renderable(then_) && match else_ {
            Some(body) => nodes_renderable(body),
            None => true,
        },
        NodeView::Stmt(StmtView::While { head, body }) => cond_renderable(head) && nodes_renderable(
            body,
        ),
        NodeView::Stmt(StmtView::For { head, body }) => for_head_renderable(head)
            && nodes_renderable(body),
        NodeView::Stmt(StmtView::Return(values)) => exprs_renderable(values),
    }
}

/// The text of the first `n` of `nodes`, each on a line of its own at the
/// given depth.
pub open spec fn render_nodes(nodes: Seq<NodeView>, n: nat, level: nat) -> Seq<char>
    decreases nodes, n,
{
    if n == 0 || n > nodes.len() {
        Seq::empty()
    } else {
        render_nodes(nodes, (n - 1) as nat, level) + indent(level) + render_node(
            nodes[n - 1],
            level,
        )
    }
}

/// The text of a node at the given depth, without the indentation in front
/// of its first line. A statement ends its last line; a bare expression
/// does not.
pub open spec fn render_node(node: NodeView, level: nat) -> Seq<char>
    decreases node, 0nat,
{
    match node {
        NodeView::Partial(_) => Seq::empty(),
        NodeView::Expr(e) => render_expr(e),
        NodeView::Stmt(StmtView::LocalVar { name, rhs }) => "local "@ + name + " = "@ + render_expr(
            rhs,
        ) + "\n"@,
        NodeView::Stmt(StmtView::Assign { name, rhs }) => name + " = "@ + render_expr(rhs) + "\n"@,
        NodeView::Stmt(StmtView::Call { name, args, .. }) => render_operand(name) + "("@
            + render_args(args, args.len()) + ")"@ + "\n"@,
        NodeView::Stmt(StmtView::Block(body)) => "do\n"@ + render_nodes(
            body,
            body.len(),
            deeper(level),
        ) + indent(level) + "end\n"@,
        NodeView::Stmt(StmtView::If { head, then_, else_ }) => "if "@ + render_cond(head)
            + " then\n"@ + render_nodes(then_, then_.len(), deeper(level)) + render_else(
            else_,
            level,
        ) + indent(level) + "end\n"@,
        NodeView::Stmt(StmtView::While { head, body }) => "while "@ + render_cond(head) + " do\n"@
            + render_nodes(body, body.len(), deeper(level)) + indent(level) + "end\n"@,
        NodeView::Stmt(StmtView::For { head, body }) => "for "@ + render_for_head(head) + " do\n"@
            + render_nodes(body, body.len(), deeper(level)) + indent(level) + "end\n"@,
        NodeView::Stmt(StmtView::Return(values)) => if values.len() == 0 {
            "return\n"@
        } else {
            "return "@ + render_args(values, values.len()) + "\n"@
        },
    }
}

/// The text of the `else` arm of an `if` at the given depth, if it has one.
pub open spec fn render_else(else_: Option<Seq<NodeView>>, level: nat) -> Seq<char>
    decreases else_, 0nat,
{
    match else_ {
        Some(body) => indent(level) + "else\n"@ + render_nodes(body, body.len(), deeper(level)),
        None => Seq::empty(),
    }
}

/// The source text of a syntax tree.
pub open spec fn render(syntax: Seq<NodeView>) -> Seq<char> {
    render_nodes(syntax, syntax.len(), 0)
}

/// The error for a tree that holds a number which is not finite.
pub open spec fn unrenderable() -> ErrorView {
    ErrorView::Fmt("number has no decimal notation"@)
}

/// The error for a tree that holds a number which is not finite.
pub fn err_unrenderable() -> (e: Error)
    ensures
        e@ == unrenderable(),
{
    Error::new_fmt("number has no decimal notation")
}

/// What a write owes: where the text can be written, it is appended; where
/// it cannot, the write fails.
pub open spec fn wrote(
    before: Seq<char>,
    after: Seq<char>,
    r: Result<(), Error>,
    renderable: bool,
    text: Seq<char>,
) -> bool {
    if renderable {
        r is Ok && after == before + text
    } else {
        r is Err && r->Err_0@ == unrenderable()
    }
}

fn bin_op_str(op: BinOp) -> (s: &'static str)
    ensures
        s@ == bin_symbol(op),
{
    match op {
        BinOp::Add => "+",
        BinOp::Sub => "-",
        BinOp::Mult => "*",
        BinOp::Div => "/",
        BinOp::Pow => "^",
        BinOp::Concat => "..",
    }
}

fn un_op_str(op: UnOp) -> (s: &'static str)
    ensures
        s@ == un_symbol(op),
{
    match op {
        UnOp::Minus => "-",
        UnOp::Not => "not ",
    }
}

fn cond_op_str(op: CondOp) -> (s: &'static str)
    ensures
        s@ == cond_symbol(op),
{
    match op {
        CondOp::Ne => "~=",
        CondOp::Eq => "==",
        CondOp::Lt => "<",
        CondOp::Le => "<=",
        CondOp::Gt => ">",
        CondOp::Ge => ">=",
    }
}

/// Appends a character as it stands in a string literal.
fn push_escaped(f: &mut String, c: char)
    ensures
        final(f)@ == old(f)@ + escape(c),
{
    proof {
        reveal_strlit("\\\"");
        reveal_strlit("\\\\");
        reveal_strlit("\\n");
        reveal_strlit("\\r");
        reveal_strlit("\\t");
        reveal_strlit("\\");
    }
    if c == '"' {
        f.append("\\\"");
        assert(f@ =~= old(f)@ + escape(c));
    } else if c == '\\' {
        f.append("\\\\");
        assert(f@ =~= old(f)@ + escape(c));
    } else if c == '\n' {
        f.append("\\n");
        assert(f@ =~= old(f)@ + escape(c));
    } else if c == '\r' {
        f.append("\\r");
        assert(f@ =~= old(f)@ + escape(c));
    } else if c == '\t' {
        f.append("\\t");
        assert(f@ =~= old(f)@ + escape(c));
    } else if (c as u32) < 32 || c as u32 == 127 {
        let code: u32 = c as u32;
        f.append("\\");
        f.append(digit_str((code / 100) as u64));
        f.append(digit_str((code / 10 % 10) as u64));
        f.append(digit_str((code % 10) as u64));
        assert(f@ =~= old(f)@ + escape(c));
    } else {
        push_char(f, c);
        assert(f@ =~= old(f)@ + escape(c));
    }
}

/// Appends the string literal that stands for `text`.
#[verifier::loop_isolation(false)]
fn push_quoted(f: &mut String, text: &str)
    ensures
        final(f)@ == old(f)@ + quoted(text@),
{
    proof {
        reveal_strlit("\"");
    }
    f.append("\"");
    let ghost opened = f@;
    let n: usize = text.unicode_len();
    let mut i: usize = 0;
    assert(f@ =~= opened + escaped(text@, 0));
    while i < n
        invariant
            i <= n,
            n == text@.len(),
            f@ == opened + escaped(text@, i as nat),
        decreases n - i,
    {
        let c: char = text.get_char(i);
        push_escaped(f, c);
        i = i + 1;
        assert(f@ =~= opened + escaped(text@, i as nat));
    }
    f.append("\"");
    assert(f@ =~= old(f)@ + quoted(text@));
}

/// The writer of source text. It keeps the depth of the block that it is
/// writing.
pub struct Scribe {
    level: u32,
}

impl Scribe {
    /// The depth at which the scribe writes.
    pub closed spec fn depth(&self) -> nat {
        self.level as nat
    }

    /// A scribe at depth zero.
    pub fn new() -> (scribe: Self)
        ensures
            scribe.depth() == 0,
    {
        Self { level: 0 }
    }

    /// Appends the source text of a completed syntax tree to `f`, indented
    /// by the depth of the scribe: for a new scribe, the text is
    /// [`render`] of the tree.
    ///
    /// Fails where the tree holds a number that is not finite, which no
    /// source text stands for.
    pub fn fmt_syntax(&mut self, f: &mut String, syntax: &Syntax) -> (r: Result<(), Error>)
        requires
            completed(syntax@),
        ensures
            wrote(
                old(f)@,
                final(f)@,
                r,
                nodes_renderable(syntax@),
                render_nodes(syntax@, syntax@.len(), old(self).depth()),
            ),
            r is Ok ==> final(self).depth() == old(self).depth(),
            r is Ok && old(self).depth() == 0 ==> final(f)@ == old(f)@ + render(syntax@),
    {
        self.fmt_block(f, &syntax.root)
    }

    fn fmt_indent(&self, f: &mut String)
        ensures
            final(f)@ == old(f)@ + indent(self.depth()),
    {
        let mut i: u32 = 0;
        assert(f@ =~= old(f)@ + indent(0));
        while i < self.level
            invariant
                i <= self.level,
                f@ == old(f)@ + indent(i as nat),
            decreases self.level - i,
        {
            f.append("    ");
            i = i + 1;
            assert(f@ =~= old(f)@ + indent(i as nat));
        }
    }

    /// Writes a block with the indentation one level deeper.
    fn with_indent(&mut self, f: &mut String, block: &Block) -> (r: Result<(), Error>)
        requires
            completed(block@),
        ensures
            wrote(
                old(f)@,
                final(f)@,
                r,
                nodes_renderable(block@),
                render_nodes(block@, block@.len(), deeper(old(self).depth())),
            ),
            r is Ok ==> final(self).depth() == old(self).depth(),
        decreases block, 1nat,
    {
        let saved: u32 = self.level;
        if self.level < u32::MAX {
            self.level = self.level + 1;
        }
        let r = self.fmt_block(f, block);
        self.level = saved;
        r
    }

    #[verifier::loop_isolation(false)]
    fn fmt_block(&mut self, f: &mut String, block: &Block) -> (r: Result<(), Error>)
        requires
            completed(block@),
        ensures
            wrote(
                old(f)@,
                final(f)@,
                r,
                nodes_renderable(block@),
                render_nodes(block@, block@.len(), old(self).depth()),
            ),
            r is Ok ==> final(self).depth() == old(self).depth(),
        decreases block, 0nat,
    {
        let ghost level = self.depth();
        let mut i: usize = 0;
        assert(f@ =~= old(f)@ + render_nodes(block@, 0, level));
        while i < block.nodes.len()
            invariant
                i <= block.nodes.len(),
                self.depth() == level,
                f@ == old(f)@ + render_nodes(block@, i as nat, level),
                forall|j: int| 0 <= j < i ==> node_renderable(#[trigger] block@[j]),
            decreases block.nodes.len() - i,
        {
            self.fmt_indent(f);
            assert(block@[i as int] == block.nodes[i as int]@);
            match self.fmt_node(f, &block.nodes[i]) {
                Err(e) => {
                    return Err(e);
                },
                Ok(_) => {},
            }
            i = i + 1;
            assert(f@ =~= old(f)@ + render_nodes(block@, i as nat, level));
        }
        Ok(())
    }

    fn fmt_node(&mut self, f: &mut String, node: &Node) -> (r: Result<(), Error>)
        requires
            node_completed(node@),
        ensures
            wrote(
                old(f)@,
                final(f)@,
                r,
                node_renderable(node@),
                render_node(node@, old(self).depth()),
            ),
            r is Ok ==> final(self).depth() == old(self).depth(),
        decreases node, 0nat,
    {
        match node {
            Node::Stmt(stmt) => self.fmt_stmt(f, stmt),
            Node::Expr(expr) => self.fmt_expr(f, expr),
            Node::Partial(_) => Ok(()),
        }
    }

    fn fmt_stmt(&mut self, f: &mut String, stmt: &Stmt) -> (r: Result<(), Error>)
        requires
            node_completed(NodeView::Stmt(stmt@)),
        ensures
            wrote(
                old(f)@,
                final(f)@,
                r,
                node_renderable(NodeView::Stmt(stmt@)),
                render_node(NodeView::Stmt(stmt@), old(self).depth()),
            ),
            r is Ok ==> final(self).depth() == old(self).depth(),
        decreases stmt, 0nat,
    {
        let ghost level = self.depth();
        match stmt {
            Stmt::LocalVar(local_var) => self.fmt_local_var(f, local_var),
            Stmt::Call(call) => {
                match self.fmt_call(f, call) {
                    Err(e) => {
                        return Err(e);
                    },
                    Ok(_) => {},
                }
                f.append("\n");
                assert(f@ =~= old(f)@ + render_node(NodeView::Stmt(stmt@), level));
                Ok(())
            },
            Stmt::Assign(assign) => self.fmt_assign(f, assign),
            Stmt::Block(block) => self.fmt_block_stmt(f, block),
            Stmt::If(if_block) => self.fmt_if_block(f, if_block),
            Stmt::While(while_block) => self.fmt_while_block(f, while_block),
            Stmt::For(for_block) => self.fmt_for_block(f, for_block),
            Stmt::Return(values) => {
                assert(render_node(NodeView::Stmt(stmt@), level) == render_node(
                    NodeView::Stmt(stmt@),
                    0,
                ));
                self.fmt_return(f, values)
            },
        }
    }

    fn fmt_local_var(&self, f: &mut String, local_var: &LocalVar) -> (r: Result<(), Error>)
        ensures
            wrote(
                old(f)@,
                final(f)@,
                r,
                expr_renderable(local_var.rhs@),
                "local "@ + local_var.name@ + " = "@ + render_expr(local_var.rhs@) + "\n"@,
            ),
    {
        f.append("local ");
        f.append(local_var.name.as_str());
        f.append(" = ");
        match self.fmt_expr(f, &local_var.rhs) {
            Err(e) => {
                return Err(e);
            },
            Ok(_) => {},
        }
        f.append("\n");
        assert(f@ =~= old(f)@ + ("local "@ + local_var.name@ + " = "@ + render_expr(
            local_var.rhs@,
        ) + "\n"@));
        Ok(())
    }

    fn fmt_assign(&self, f: &mut String, assign: &Assign) -> (r: Result<(), Error>)
        ensures
            wrote(
                old(f)@,
                final(f)@,
                r,
                expr_renderable(assign.rhs@),
                assign.name@ + " = "@ + render_expr(assign.rhs@) + "\n"@,
            ),
    {
        f.append(assign.name.as_str());
        f.append(" = ");
        match self.fmt_expr(f, &assign.rhs) {
            Err(e) => {
                return Err(e);
            },
            Ok(_) => {},
        }
        f.append("\n");
        assert(f@ =~= old(f)@ + (assign.name@ + " = "@ + render_expr(assign.rhs@) + "\n"@));
        Ok(())
    }

    fn fmt_return(&self, f: &mut String, values: &Vec<Expr>) -> (r: Result<(), Error>)
        ensures
            wrote(
                old(f)@,
                final(f)@,
                r,
                exprs_renderable(exprs_view(values@)),
                render_node(NodeView::Stmt(StmtView::Return(exprs_view(values@))), 0),
            ),
    {
        if values.len() == 0 {
            f.append("return\n");
            return Ok(());
        }
        f.append("return ");
        match self.fmt_args(f, values) {
            Err(e) => {
                return Err(e);
            },
            Ok(_) => {},
        }
        f.append("\n");
        assert(f@ =~= old(f)@ + ("return "@ + render_args(
            exprs_view(values@),
            values@.len() as nat,
        ) + "\n"@));
        Ok(())
    }

    fn fmt_expr(&self, f: &mut String, expr: &Expr) -> (r: Result<(), Error>)
        ensures
            wrote(old(f)@, final(f)@, r, expr_renderable(expr@), render_expr(expr@)),
        decreases expr, 0nat,
    {
        match expr {
            Expr::Access(ident) => {
                self.fmt_access(f, ident);
                Ok(())
            },
            Expr::Literal(lit) => self.fmt_lit(f, lit),
            Expr::Unary(un_expr) => self.fmt_unary_expr(f, un_expr),
            Expr::Binary(bin_expr) => self.fmt_binary_expr(f, bin_expr),
            Expr::Call(call) => self.fmt_call(f, call),
        }
    }

    /// Writes an expression as an operand: an operation in parentheses.
    fn fmt_operand(&self, f: &mut String, expr: &Expr) -> (r: Result<(), Error>)
        ensures
            wrote(old(f)@, final(f)@, r, expr_renderable(expr@), render_operand(expr@)),
        decreases expr, 1nat,
    {
        let wrap: bool = match expr {
            Expr::Unary(_) => true,
            Expr::Binary(_) => true,
            _ => false,
        };
        if wrap {
            f.append("(");
            match self.fmt_expr(f, expr) {
                Err(e) => {
                    return Err(e);
                },
                Ok(_) => {},
            }
            f.append(")");
            assert(f@ =~= old(f)@ + ("("@ + render_expr(expr@) + ")"@));
            Ok(())
        } else {
            self.fmt_expr(f, expr)
        }
    }

    fn fmt_access(&self, f: &mut String, ident: &Ident)
        ensures
            final(f)@ == old(f)@ + ident@,
    {
        f.append(ident.as_str());
    }

    fn fmt_lit(&self, f: &mut String, lit: &Lit) -> (r: Result<(), Error>)
        ensures
            wrote(old(f)@, final(f)@, r, lit_renderable(lit@), render_lit(lit@)),
    {
        match lit {
            Lit::Nil => {
                f.append("nil");
                Ok(())
            },
            Lit::Int(value) => {
                push_dec_int(f, *value as i64);
                Ok(())
            },
            Lit::Num(number) => {
                if number.push_text(f) {
                    Ok(())
                } else {
                    Err(err_unrenderable())
                }
            },
            Lit::Str(text) => {
                push_quoted(f, text.as_str());
                Ok(())
            },
        }
    }

    fn fmt_unary_expr(&self, f: &mut String, un_expr: &UnExpr) -> (r: Result<(), Error>)
        ensures
            wrote(
                old(f)@,
                final(f)@,
                r,
                expr_renderable(un_expr.rhs@),
                un_symbol(un_expr.op) + render_operand(un_expr.rhs@),
            ),
        decreases un_expr, 0nat,
    {
        f.append(un_op_str(un_expr.op));
        match self.fmt_operand(f, &un_expr.rhs) {
            Err(e) => {
                return Err(e);
            },
            Ok(_) => {},
        }
        assert(f@ =~= old(f)@ + (un_symbol(un_expr.op) + render_operand(un_expr.rhs@)));
        Ok(())
    }

    fn fmt_binary_expr(&self, f: &mut String, bin_expr: &BinExpr) -> (r: Result<(), Error>)
        ensures
            wrote(
                old(f)@,
                final(f)@,
                r,
                expr_renderable(bin_expr.lhs@) && expr_renderable(bin_expr.rhs@),
                render_operand(bin_expr.lhs@) + " "@ + bin_symbol(bin_expr.op) + " "@
                    + render_operand(bin_expr.rhs@),
            ),
        decreases bin_expr, 0nat,
    {
        match self.fmt_operand(f, &bin_expr.lhs) {
            Err(e) => {
                return Err(e);
            },
            Ok(_) => {},
        }
        f.append(" ");
        f.append(bin_op_str(bin_expr.op));
        f.append(" ");
        match self.fmt_operand(f, &bin_expr.rhs) {
            Err(e) => {
                return Err(e);
            },
            Ok(_) => {},
        }
        assert(f@ =~= old(f)@ + (render_operand(bin_expr.lhs@) + " "@ + bin_symbol(bin_expr.op)
            + " "@ + render_operand(bin_expr.rhs@)));
        Ok(())
    }

    /// Writes expressions with `, ` between them.
    #[verifier::loop_isolation(false)]
    fn fmt_args(&self, f: &mut String, args: &Vec<Expr>) -> (r: Result<(), Error>)
        ensures
            wrote(
                old(f)@,
                final(f)@,
                r,
                exprs_renderable(exprs_view(args@)),
                render_args(exprs_view(args@), args@.len() as nat),
            ),
        decreases args, 0nat,
    {
        let ghost views = exprs_view(args@);
        let mut i: usize = 0;
        assert(f@ =~= old(f)@ + render_args(views, 0));
        while i < args.len()
            invariant
                i <= args.len(),
                f@ == old(f)@ + render_args(views, i as nat),
                forall|j: int| 0 <= j < i ==> expr_renderable(#[trigger] views[j]),
            decreases args.len() - i,
        {
            if i != 0 {
                f.append(", ");
            }
            assert(views[i as int] == args[i as int]@);
            match self.fmt_expr(f, &args[i]) {
                Err(e) => {
                    return Err(e);
                },
                Ok(_) => {},
            }
            i = i + 1;
            assert(f@ =~= old(f)@ + render_args(views, i as nat));
        }
        Ok(())
    }

    fn fmt_call(&self, f: &mut String, call: &Call) -> (r: Result<(), Error>)
        ensures
            wrote(
                old(f)@,
                final(f)@,
                r,
                expr_renderable(call.name@) && exprs_renderable(exprs_view(call.args@)),
                render_operand(call.name@) + "("@ + render_args(
                    exprs_view(call.args@),
                    call.args@.len() as nat,
                ) + ")"@,
            ),
        decreases call, 0nat,
    {
        match self.fmt_operand(f, &call.name) {
            Err(e) => {
                return Err(e);
            },
            Ok(_) => {},
        }
        f.append("(");
        match self.fmt_args(f, &call.args) {
            Err(e) => {
                return Err(e);
            },
            Ok(_) => {},
        }
        f.append(")");
        assert(f@ =~= old(f)@ + (render_operand(call.name@) + "("@ + render_args(
            exprs_view(call.args@),
            call.args@.len() as nat,
        ) + ")"@));
        Ok(())
    }

    fn fmt_cond_expr(&self, f: &mut String, expr: &CondExpr) -> (r: Result<(), Error>)
        ensures
            wrote(old(f)@, final(f)@, r, cond_renderable(expr@), render_cond(expr@)),
    {
        match expr {
            CondExpr::Unary { op, rhs } => {
                f.append(un_op_str(*op));
                match self.fmt_operand(f, rhs) {
                    Err(e) => {
                        return Err(e);
                    },
                    Ok(_) => {},
                }
                assert(f@ =~= old(f)@ + render_cond(expr@));
                Ok(())
            },
            CondExpr::Binary { op, lhs, rhs } => {
                match self.fmt_operand(f, lhs) {
                    Err(e) => {
                        return Err(e);
                    },
                    Ok(_) => {},
                }
                f.append(" ");
                f.append(cond_op_str(*op));
                f.append(" ");
                match self.fmt_operand(f, rhs) {
                    Err(e) => {
                        return Err(e);
                    },
                    Ok(_) => {},
                }
                assert(f@ =~= old(f)@ + render_cond(expr@));
                Ok(())
            },
        }
    }

    fn fmt_for_head(&self, f: &mut String, head: &ForHead) -> (r: Result<(), Error>)
        ensures
            wrote(old(f)@, final(f)@, r, for_head_renderable(head@), render_for_head(head@)),
    {
        match head {
            ForHead::Numeric { var, start, limit, step } => {
                f.append(var.as_str());
                f.append(" = ");
                match self.fmt_expr(f, start) {
                    Err(e) => {
                        return Err(e);
                    },
                    Ok(_) => {},
                }
                f.append(", ");
                match self.fmt_expr(f, limit) {
                    Err(e) => {
                        return Err(e);
                    },
                    Ok(_) => {},
                }
                f.append(", ");
                match self.fmt_expr(f, step) {
                    Err(e) => {
                        return Err(e);
                    },
                    Ok(_) => {},
                }
                assert(f@ =~= old(f)@ + render_for_head(head@));
                Ok(())
            },
            ForHead::Generic { key, value, table } => {
                f.append(key.as_str());
                f.append(", ");
                f.append(value.as_str());
                f.append(" in ");
                match self.fmt_expr(f, table) {
                    Err(e) => {
                        return Err(e);
                    },
                    Ok(_) => {},
                }
                assert(f@ =~= old(f)@ + render_for_head(head@));
                Ok(())
            },
        }
    }

    fn fmt_block_stmt(&mut self, f: &mut String, block: &Block) -> (r: Result<(), Error>)
        requires
            completed(block@),
        ensures
            wrote(
                old(f)@,
                final(f)@,
                r,
                nodes_renderable(block@),
                render_node(NodeView::Stmt(StmtView::Block(block@)), old(self).depth()),
            ),
            r is Ok ==> final(self).depth() == old(self).depth(),
        decreases block, 2nat,
    {
        f.append("do\n");
        match self.with_indent(f, block) {
            Err(e) => {
                return Err(e);
            },
            Ok(_) => {},
        }
        self.fmt_indent(f);
        f.append("end\n");
        assert(f@ =~= old(f)@ + render_node(
            NodeView::Stmt(StmtView::Block(block@)),
            old(self).depth(),
        ));
        Ok(())
    }

    /// Writes the `else` arm of an `if`, if it has one.
    fn fmt_else(&mut self, f: &mut String, else_: &Option<Block>) -> (r: Result<(), Error>)
        requires
            match else_ {
                Some(body) => completed(body@),
                None => true,
            },
        ensures
            wrote(
                old(f)@,
                final(f)@,
                r,
                match else_ {
                    Some(body) => nodes_renderable(body@),
                    None => true,
                },
                render_else(
                    match else_ {
                        Some(body) => Some(body@),
                        None => None,
                    },
                    old(self).depth(),
                ),
            ),
            r is Ok ==> final(self).depth() == old(self).depth(),
        decreases else_, 2nat,
    {
        match else_ {
            Some(body) => {
                self.fmt_indent(f);
                f.append("else\n");
                match self.with_indent(f, body) {
                    Err(e) => {
                        return Err(e);
                    },
                    Ok(_) => {},
                }
                assert(f@ =~= old(f)@ + (indent(old(self).depth()) + "else\n"@ + render_nodes(
                    body@,
                    body@.len(),
                    deeper(old(self).depth()),
                )));
                Ok(())
            },
            None => {
                assert(f@ =~= old(f)@ + Seq::<char>::empty());
                Ok(())
            },
        }
    }

    #[verifier::rlimit(50)]
    fn fmt_if_block(&mut self, f: &mut String, if_block: &IfBlock) -> (r: Result<(), Error>)
        requires
            node_completed(NodeView::Stmt(Stmt::If(*if_block)@)),
        ensures
            wrote(
                old(f)@,
                final(f)@,
                r,
                node_renderable(NodeView::Stmt(Stmt::If(*if_block)@)),
                render_node(NodeView::Stmt(Stmt::If(*if_block)@), old(self).depth()),
            ),
            r is Ok ==> final(self).depth() == old(self).depth(),
        decreases if_block, 3nat,
    {
        let ghost level = self.depth();
        let ghost else_view = match &if_block.else_ {
            Some(body) => Some(body@),
            None => None,
        };
        //  head
        f.append("if ");
        match self.fmt_cond_expr(f, &if_block.head) {
            Err(e) => {
                return Err(e);
            },
            Ok(_) => {},
        }
        f.append(" then\n");
        // body
        match self.with_indent(f, &if_block.then_) {
            Err(e) => {
                return Err(e);
            },
            Ok(_) => {},
        }
        match self.fmt_else(f, &if_block.else_) {
            Err(e) => {
                return Err(e);
            },
            Ok(_) => {},
        }
        self.fmt_indent(f);
        f.append("end\n");
        assert(f@ =~= old(f)@ + ("if "@ + render_cond(if_block.head@) + " then\n"@ + render_nodes(
            if_block.then_@,
            if_block.then_@.len(),
            deeper(level),
        ) + render_else(else_view, level) + indent(level) + "end\n"@));
        Ok(())
    }

    #[verifier::rlimit(50)]
    fn fmt_while_block(&mut self, f: &mut String, while_block: &WhileBlock) -> (r: Result<
        (),
        Error,
    >)
        requires
            completed(while_block.body@),
        ensures
            wrote(
                old(f)@,
                final(f)@,
                r,
                cond_renderable(while_block.head@) && nodes_renderable(while_block.body@),
                render_node(
                    NodeView::Stmt(
                        StmtView::While { head: while_block.head@, body: while_block.body@ },
                    ),
                    old(self).depth(),
                ),
            ),
            r is Ok ==> final(self).depth() == old(self).depth(),
        decreases while_block, 0nat,
    {
        f.append("while ");
        match self.fmt_cond_expr(f, &while_block.head) {
            Err(e) => {
                return Err(e);
            },
            Ok(_) => {},
        }
        f.append(" do\n");
        match self.with_indent(f, &while_block.body) {
            Err(e) => {
                return Err(e);
            },
            Ok(_) => {},
        }
        self.fmt_indent(f);
        f.append("end\n");
        assert(f@ =~= old(f)@ + render_node(
            NodeView::Stmt(StmtView::While { head: while_block.head@, body: while_block.body@ }),
            old(self).depth(),
        ));
        Ok(())
    }

    #[verifier::rlimit(50)]
    fn fmt_for_block(&mut self, f: &mut String, for_block: &ForBlock) -> (r: Result<(), Error>)
        requires
            completed(for_block.body@),
        ensures
            wrote(
                old(f)@,
                final(f)@,
                r,
                for_head_renderable(for_block.head@) && nodes_renderable(for_block.body@),
                render_node(
                    NodeView::Stmt(StmtView::For { head: for_block.head@, body: for_block.body@ }),
                    old(self).depth(),
                ),
            ),
            r is Ok ==> final(self).depth() == old(self).depth(),
        decreases for_block, 0nat,
    {
        f.append("for ");
        match self.fmt_for_head(f, &for_block.head) {
            Err(e) => {
                return Err(e);
            },
            Ok(_) => {},
        }
        f.append(" do\n");
        match self.with_indent(f, &for_block.body) {
            Err(e) => {
                return Err(e);
            },
            Ok(_) => {},
        }
        self.fmt_indent(f);
        f.append("end\n");
        assert(f@ =~= old(f)@ + render_node(
            NodeView::Stmt(StmtView::For { head: for_block.head@, body: for_block.body@ }),
            old(self).depth(),
        ));
        Ok(())
    }
}

} // verus!
