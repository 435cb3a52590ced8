//! Abstract syntax tree.
use vstd::prelude::*;
use vstd::string::StringExecFns;
use crate::lua40::number::Number;

verus! {

/// Binary operators of expressions.
#[derive(Debug, Clone, Copy, PartialEq, Eq, Structural)]
pub enum BinOp {
    Add,
    Sub,
    Mult,
    Div,
    Pow,
    Concat,
}

/// Unary operators of expressions.
#[derive(Debug, Clone, Copy, PartialEq, Eq, Structural)]
pub enum UnOp {
    Minus,
    Not,
}

/// Conditional operators.
#[derive(Debug, Clone, Copy, PartialEq, Eq, Structural)]
pub enum CondOp {
    Ne,
    Eq,
    Lt,
    Le,
    Gt,
    Ge,
}

/// A name in the source text.
#[derive(Debug)]
pub struct Ident {
    text: String,
}

/// Literal value.
#[derive(Debug)]
pub enum Lit {
    Nil,
    Int(i32),
    Num(Number),
    Str(String),
}

/// An expression.
#[derive(Debug)]
pub enum Expr {
    /// Variable access by name.
    Access(Ident),
    Literal(Lit),
    Unary(Box<UnExpr>),
    Binary(Box<BinExpr>),
    Call(Box<Call>),
}

/// A unary operation.
#[derive(Debug)]
pub struct UnExpr {
    pub op: UnOp,
    pub rhs: Expr,
}

/// A binary operation.
#[derive(Debug)]
pub struct BinExpr {
    pub op: BinOp,
    pub lhs: Expr,
    pub rhs: Expr,
}

/// A call of the function `name` with the arguments `args`.
#[derive(Debug)]
pub struct Call {
    pub name: Expr,
    pub args: Vec<Expr>,
    /// Set when the call leaves all of its results on the stack.
    pub multret: bool,
}

/// Condition of an `if` or a `while`.
#[derive(Debug)]
#[allow(inconsistent_fields)]
pub enum CondExpr {
    Unary { op: UnOp, rhs: Expr },
    Binary { op: CondOp, lhs: Expr, rhs: Expr },
}

/// Block of statements.
#[derive(Debug)]
pub struct Block {
    pub nodes: Vec<Node>,
}

/// Syntax node.
#[derive(Debug)]
pub enum Node {
    Stmt(Stmt),
    Expr(Expr),
    Partial(Partial),
}

/// A statement.
#[derive(Debug)]
pub enum Stmt {
    LocalVar(LocalVar),
    Assign(Box<Assign>),
    Call(Box<Call>),
    Block(Block),
    If(IfBlock),
    While(WhileBlock),
    For(ForBlock),
    Return(Vec<Expr>),
}

/// Local variable declaration: `local {name} = {rhs}`.
#[derive(Debug)]
pub struct LocalVar {
    pub name: Ident,
    pub rhs: Expr,
}

/// Assignment: `{name} = {rhs}`.
#[derive(Debug)]
pub struct Assign {
    pub name: Ident,
    pub rhs: Expr,
}

/// `if` conditional block statement.
#[derive(Debug)]
pub struct IfBlock {
    pub head: CondExpr,
    pub then_: Block,
    pub else_: Option<Block>,
}

/// `while` loop statement.
#[derive(Debug)]
pub struct WhileBlock {
    pub head: CondExpr,
    pub body: Block,
}

/// What stands between `for` and `do`.
#[derive(Debug)]
pub enum ForHead {
    /// `for {var} = {start}, {limit}, {step} do`
    Numeric { var: Ident, start: Expr, limit: Expr, step: Expr },
    /// `for {key}, {value} in {table} do`
    Generic { key: Ident, value: Ident, table: Expr },
}

/// `for` loop statement.
#[derive(Debug)]
pub struct ForBlock {
    pub head: ForHead,
    pub body: Block,
}

/// A partially built statement.
#[derive(Debug)]
pub enum Partial {
    IfHead(Box<IfHead>),
    WhileHead(Box<WhileHead>),
    ForHead(Box<ForHead>),
}

/// Header of an `if` statement whose arms are still being collected.
///
/// `then_` is empty until the arm has been closed by the jump over the
/// `else` arm.
#[derive(Debug)]
pub struct IfHead {
    pub expr: CondExpr,
    pub then_: Option<Block>,
}

/// Header of a `while` statement whose body is still being collected.
#[derive(Debug)]
pub struct WhileHead {
    pub expr: CondExpr,
}

/// Abstract syntax tree.
#[derive(Debug)]
pub struct Syntax {
    pub root: Block,
    pub debug: (),
}

/// Mathematical view of a [`Lit`].
pub ghost enum LitView {
    Nil,
    Int(i32),
    Num(Number),
    Str(Seq<char>),
}

/// Mathematical view of an [`Expr`]: names and strings as character
/// sequences, argument lists as sequences.
#[allow(inconsistent_fields)]
pub ghost enum ExprView {
    Access(Seq<char>),
    Literal(LitView),
    Unary { op: UnOp, rhs: Box<ExprView> },
    Binary { op: BinOp, lhs: Box<ExprView>, rhs: Box<ExprView> },
    Call { name: Box<ExprView>, args: Seq<ExprView>, multret: bool },
}

/// Mathematical view of a [`CondExpr`].
#[allow(inconsistent_fields)]
pub ghost enum CondView {
    Unary { op: UnOp, rhs: ExprView },
    Binary { op: CondOp, lhs: ExprView, rhs: ExprView },
}

/// Mathematical view of a [`ForHead`].
pub ghost enum ForHeadView {
    Numeric { var: Seq<char>, start: ExprView, limit: ExprView, step: ExprView },
    Generic { key: Seq<char>, value: Seq<char>, table: ExprView },
}

/// Mathematical view of a [`Stmt`]: a block is the sequence of its nodes.
#[allow(inconsistent_fields)]
pub ghost enum StmtView {
    LocalVar { name: Seq<char>, rhs: ExprView },
    Assign { name: Seq<char>, rhs: ExprView },
    Call { name: ExprView, args: Seq<ExprView>, multret: bool },
    Block(Seq<NodeView>),
    If { head: CondView, then_: Seq<NodeView>, else_: Option<Seq<NodeView>> },
    While { head: CondView, body: Seq<NodeView> },
    For { head: ForHeadView, body: Seq<NodeView> },
    Return(Seq<ExprView>),
}

/// Mathematical view of a [`Partial`].
#[allow(inconsistent_fields)]
pub ghost enum PartialView {
    IfHead { expr: CondView, then_: Option<Seq<NodeView>> },
    WhileHead { expr: CondView },
    ForHead(ForHeadView),
}

/// Mathematical view of a [`Node`].
pub ghost enum NodeView {
    Stmt(StmtView),
    Expr(ExprView),
    Partial(PartialView),
}

impl View for Ident {
    type V = Seq<char>;

    closed spec fn view(&self) -> Seq<char> {
        self.text@
    }
}

impl View for Lit {
    type V = LitView;

    open spec fn view(&self) -> LitView {
        match self {
            Lit::Nil => LitView::Nil,
            Lit::Int(v) => LitView::Int(*v),
            Lit::Num(n) => LitView::Num(*n),
            Lit::Str(s) => LitView::Str(s@),
        }
    }
}

/// The view of an expression: the same tree over character sequences.
pub open spec fn expr_view(e: Expr) -> ExprView
    decreases e,
{
    match e {
        Expr::Access(ident) => ExprView::Access(ident@),
        Expr::Literal(lit) => ExprView::Literal(lit@),
        Expr::Unary(u) => ExprView::Unary { op: u.op, rhs: Box::new(expr_view(u.rhs)) },
        Expr::Binary(b) => ExprView::Binary {
            op: b.op,
            lhs: Box::new(expr_view(b.lhs)),
            rhs: Box::new(expr_view(b.rhs)),
        },
        Expr::Call(c) => ExprView::Call {
            name: Box::new(expr_view(c.name)),
            args: exprs_view(c.args@),
            multret: c.multret,
        },
    }
}

/// The views of a sequence of expressions, one by one.
pub open spec fn exprs_view(s: Seq<Expr>) -> Seq<ExprView>
    decreases s,
{
    Seq::new(
        s.len(),
        |i: int|
            if 0 <= i < s.len() {
                expr_view(s[i])
            } else {
                ExprView::Literal(LitView::Nil)
            },
    )
}

impl View for Expr {
    type V = ExprView;

    open spec fn view(&self) -> ExprView {
        expr_view(*self)
    }
}

impl View for CondExpr {
    type V = CondView;

    open spec fn view(&self) -> CondView {
        match self {
            CondExpr::Unary { op, rhs } => CondView::Unary { op: *op, rhs: rhs@ },
            CondExpr::Binary { op, lhs, rhs } => CondView::Binary { op: *op, lhs: lhs@, rhs: rhs@ },
        }
    }
}

impl View for ForHead {
    type V = ForHeadView;

    open spec fn view(&self) -> ForHeadView {
        match self {
            ForHead::Numeric { var, start, limit, step } => ForHeadView::Numeric {
                var: var@,
                start: start@,
                limit: limit@,
                step: step@,
            },
            ForHead::Generic { key, value, table } => ForHeadView::Generic {
                key: key@,
                value: value@,
                table: table@,
            },
        }
    }
}

/// The view of a node.
pub open spec fn node_view(n: Node) -> NodeView
    decreases n,
{
    match n {
        Node::Stmt(s) => NodeView::Stmt(stmt_view(s)),
        Node::Expr(e) => NodeView::Expr(e@),
        Node::Partial(p) => NodeView::Partial(partial_view(p)),
    }
}

/// The view of a statement.
pub open spec fn stmt_view(s: Stmt) -> StmtView
    decreases s,
{
    match s {
        Stmt::LocalVar(l) => StmtView::LocalVar { name: l.name@, rhs: l.rhs@ },
        Stmt::Assign(a) => StmtView::Assign { name: a.name@, rhs: a.rhs@ },
        Stmt::Call(c) => StmtView::Call {
            name: c.name@,
            args: exprs_view(c.args@),
            multret: c.multret,
        },
        Stmt::Block(b) => StmtView::Block(nodes_view(b.nodes@)),
        Stmt::If(i) => StmtView::If {
            head: i.head@,
            then_: nodes_view(i.then_.nodes@),
            else_: match i.else_ {
                Some(b) => Some(nodes_view(b.nodes@)),
                None => None,
            },
        },
        Stmt::While(w) => StmtView::While { head: w.head@, body: nodes_view(w.body.nodes@) },
        Stmt::For(f) => StmtView::For { head: f.head@, body: nodes_view(f.body.nodes@) },
        Stmt::Return(values) => StmtView::Return(exprs_view(values@)),
    }
}

/// The view of a partially built statement.
pub open spec fn partial_view(p: Partial) -> PartialView
    decreases p,
{
    match p {
        Partial::IfHead(h) => PartialView::IfHead {
            expr: h.expr@,
            then_: match h.then_ {
                Some(b) => Some(nodes_view(b.nodes@)),
                None => None,
            },
        },
        Partial::WhileHead(h) => PartialView::WhileHead { expr: h.expr@ },
        Partial::ForHead(h) => PartialView::ForHead(h@),
    }
}

/// The views of a sequence of nodes, one by one.
pub open spec fn nodes_view(s: Seq<Node>) -> Seq<NodeView>
    decreases s,
{
    Seq::new(
        s.len(),
        |i: int|
            if 0 <= i < s.len() {
                node_view(s[i])
            } else {
                NodeView::Expr(ExprView::Literal(LitView::Nil))
            },
    )
}

impl View for Node {
    type V = NodeView;

    open spec fn view(&self) -> NodeView {
        node_view(*self)
    }
}

impl View for Stmt {
    type V = StmtView;

    open spec fn view(&self) -> StmtView {
        stmt_view(*self)
    }
}

impl View for Partial {
    type V = PartialView;

    open spec fn view(&self) -> PartialView {
        partial_view(*self)
    }
}

impl View for Block {
    type V = Seq<NodeView>;

    open spec fn view(&self) -> Seq<NodeView> {
        nodes_view(self.nodes@)
    }
}

impl View for Syntax {
    type V = Seq<NodeView>;

    open spec fn view(&self) -> Seq<NodeView> {
        self.root@
    }
}

/// No partially built statement occurs among `nodes`, at any depth.
pub open spec fn completed(nodes: Seq<NodeView>) -> bool
    decreases nodes,
{
    forall|i: int| 0 <= i < nodes.len() ==> node_completed(#[trigger] nodes[i])
}

/// No partially built statement occurs in `node`, at any depth.
pub open spec fn node_completed(node: NodeView) -> bool
    decreases node,
{
    match node {
        NodeView::Partial(_) => false,
        NodeView::Expr(_) => true,
        NodeView::Stmt(StmtView::Block(body)) => completed(body),
        NodeView::Stmt(StmtView::If { then_, else_, .. }) => completed(then_) && match else_ {
            Some(body) => completed(body),
            None => true,
        },
        NodeView::Stmt(StmtView::While { body, .. }) => completed(body),
        NodeView::Stmt(StmtView::For { body, .. }) => completed(body),
        NodeView::Stmt(_) => true,
    }
}

impl Ident {
    pub fn new(text: &str) -> (ident: Ident)
        ensures
            ident@ == text@,
    {
        Ident { text: String::from_str(text) }
    }

    pub fn as_str(&self) -> (s: &str)
        ensures
            s@ == self@,
    {
        self.text.as_str()
    }
}

impl Node {
    /// Check whether the node is a local variable declaration statement.
    pub fn is_local_var(&self) -> (b: bool)
        ensures
            b == (self@ matches NodeView::Stmt(StmtView::LocalVar { .. })),
    {
        matches!(self, Node::Stmt(Stmt::LocalVar(_)))
    }

    /// The expression that the node holds, if it holds one.
    pub fn into_expr(self) -> (r: Option<Expr>)
        ensures
            match self@ {
                NodeView::Expr(e) => r is Some && r->0@ == e,
                _ => r is None,
            },
    {
        match self {
            Node::Expr(expr) => Some(expr),
            _ => None,
        }
    }

    /// The partially built statement that the node holds, if it holds one.
    pub fn into_partial(self) -> (r: Option<Partial>)
        ensures
            match self@ {
                NodeView::Partial(p) => r is Some && r->0@ == p,
                _ => r is None,
            },
    {
        match self {
            Node::Partial(partial) => Some(partial),
            _ => None,
        }
    }

    /// Checks whether the statement is partially built.
    pub fn is_partial(&self) -> (b: bool)
        ensures
            b == (self@ is Partial),
    {
        matches!(self, Node::Partial(_))
    }

    /// Checks whether the statement is completely built.
    pub fn is_complete(&self) -> (b: bool)
        ensures
            b == !(self@ is Partial),
    {
        !self.is_partial()
    }
}

impl Stmt {
    /// Checks that no partially built statement occurs in the statement, at
    /// any depth.
    pub fn is_completed(&self) -> (b: bool)
        ensures
            b == node_completed(NodeView::Stmt(self@)),
        decreases self,
    {
        match self {
            Stmt::Block(body) => body.is_completed(),
            Stmt::If(if_block) => {
                if !if_block.then_.is_completed() {
                    false
                } else {
                    match &if_block.else_ {
                        Some(body) => body.is_completed(),
                        None => true,
                    }
                }
            },
            Stmt::While(while_block) => while_block.body.is_completed(),
            Stmt::For(for_block) => for_block.body.is_completed(),
            _ => true,
        }
    }
}

impl Block {
    /// Checks that no partially built statement occurs in the block, at any
    /// depth.
    pub fn is_completed(&self) -> (b: bool)
        ensures
            b == completed(self@),
        decreases self,
    {
        let mut i: usize = 0;
        while i < self.nodes.len()
            invariant
                i <= self.nodes.len(),
                forall|j: int| 0 <= j < i ==> node_completed(#[trigger] self@[j]),
            decreases self.nodes.len() - i,
        {
            let done = match &self.nodes[i] {
                Node::Partial(_) => false,
                Node::Expr(_) => true,
                Node::Stmt(stmt) => stmt.is_completed(),
            };
            assert(done == node_completed(self@[i as int]));
            if !done {
                return false;
            }
            i = i + 1;
        }
        true
    }
}

impl Syntax {
    /// Checks that the tree is completed: no partially built statement
    /// occurs in it, at any depth.
    pub fn is_completed(&self) -> (b: bool)
        ensures
            b == completed(self@),
    {
        self.root.is_completed()
    }
}

} // verus!
