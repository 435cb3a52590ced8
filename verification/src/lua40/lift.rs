//! The lifter as a function: what the simulation of the operand stack makes
//! of a prototype's instructions.
//!
//! The state holds, beside the simulated stack, one optional node for each
//! instruction. An instruction stores the fragment that it builds under its
//! own index and takes the fragments that it consumes out of the slots that
//! the stack points to.
use vstd::prelude::*;
use crate::errors::ErrorView;
use crate::lua40::ast::{
    completed, BinOp, CondOp, CondView, ExprView, ForHeadView, LitView, NodeView, PartialView,
    StmtView, UnOp,
};
use crate::lua40::opcode::Op;
use crate::lua40::proto::{LocalView, ProtoView};

verus! {

/// Instruction pointer.
///
/// Acts as the identifier for an instruction within the current function.
#[derive(Debug, Clone, Copy, PartialEq, Eq, Structural)]
pub struct Ip(pub u32);

/// The instructions `start + 1 .. end` that will become the body of one
/// structured statement, whose head is built at `start`.
#[derive(Debug, Clone, Copy, PartialEq, Eq, Structural)]
pub struct BlockSpan {
    /// Instruction where the block started.
    pub start: Ip,
    /// Instruction right after the last instruction in the block.
    pub end: Ip,
}

/// The state of the lifter between two instructions.
pub ghost struct LiftState {
    /// For each slot of the operand stack, the instruction that filled it.
    pub stack: Seq<Ip>,
    /// For each instruction, the fragment stored under it, if any.
    pub nodes: Seq<Option<NodeView>>,
    /// The open block spans, innermost last.
    pub blocks: Seq<BlockSpan>,
    /// How many slots at the bottom of the stack are known to be locals.
    pub local_end: nat,
    /// How many names have been made up so far.
    pub names: nat,
}

/// The next state, or the reason why there is none.
pub type Lifted = Result<LiftState, ErrorView>;

/// An instruction needs more slots than the stack holds.
pub open spec fn stack_underflow() -> ErrorView {
    ErrorView::Parser("operand stack underflow"@)
}

/// A fragment that is consumed as an expression is none.
pub open spec fn expr_expected() -> ErrorView {
    ErrorView::Parser("expected expression"@)
}

/// The head of a block that closes is no partially built statement.
pub open spec fn partial_expected() -> ErrorView {
    ErrorView::Parser("expected partial statement"@)
}

/// A slot holds no fragment: it was consumed before.
pub open spec fn node_none() -> ErrorView {
    ErrorView::Parser("no syntax node for bytecode"@)
}

/// The fragment of a local is a statement other than a declaration.
pub open spec fn promote_statement() -> ErrorView {
    ErrorView::Parser("a statement cannot be turned into a local variable declaration"@)
}

/// The fragment of a local is a partially built statement.
pub open spec fn promote_partial() -> ErrorView {
    ErrorView::Parser(
        "a partially built statement cannot be turned into a local variable declaration"@,
    )
}

/// The fragment that is to name a local is a statement other than a declaration.
pub open spec fn name_of_statement() -> ErrorView {
    ErrorView::Parser("unexpected statement in local variable node"@)
}

/// The fragment that is to name a local is still a bare expression.
pub open spec fn name_of_expression() -> ErrorView {
    ErrorView::Parser("unexpected expression in local variable node"@)
}

/// The fragment that is to name a local is a partially built statement.
pub open spec fn name_of_partial() -> ErrorView {
    ErrorView::Parser("unexpected partial statement in local variable node"@)
}

/// The destination of a jump lies outside the code.
pub open spec fn jump_out_of_bounds() -> ErrorView {
    ErrorView::Parser("jump destination out of bounds"@)
}

/// A jump is not the last instruction of an open `if`.
pub open spec fn unstructured_jump() -> ErrorView {
    ErrorView::Parser("jump does not close a block"@)
}

/// An instruction names a constant that the pool does not hold.
pub open spec fn constant_out_of_range() -> ErrorView {
    ErrorView::Parser("constant index out of range"@)
}

/// The instruction is one that the lifter has no rule for.
pub open spec fn unsupported_opcode() -> ErrorView {
    ErrorView::Parser("unsupported opcode"@)
}

/// More locals than the counters of the lifter can hold.
pub open spec fn too_many_locals() -> ErrorView {
    ErrorView::Parser("too many local variables"@)
}

/// More instructions than an instruction pointer can tell apart.
pub open spec fn too_many_instructions() -> ErrorView {
    ErrorView::Parser("too many instructions"@)
}

/// A slot of a `for` that holds no variable is used as a local.
pub open spec fn hidden_slot() -> ErrorView {
    ErrorView::Parser("stack slot of a loop holds no variable"@)
}

/// A partially built statement is left when the function ends.
pub open spec fn partial_leaked() -> ErrorView {
    ErrorView::Parser("partially built statement left at the end"@)
}

/// The letters that made-up names are spelled with.
pub open spec fn letters() -> Seq<u8> {
    seq![
        97u8, 98u8, 99u8, 100u8, 101u8, 102u8, 103u8, 104u8, 105u8, 106u8, 107u8, 108u8, 109u8,
        110u8, 111u8, 112u8, 113u8, 114u8, 115u8, 116u8, 117u8, 118u8, 119u8, 120u8, 121u8, 122u8,
    ]
}

/// The `k`-th name over the alphabet `chars`: first each letter by itself,
/// then all pairs, then all triples, each group in the order of the
/// alphabet. Over the lower-case letters: `a`, ..., `z`, `aa`, `ab`, ...
pub open spec fn synth_name(chars: Seq<u8>, k: nat) -> Seq<char>
    recommends
        chars.len() > 0,
    decreases k,
{
    if chars.len() == 0 {
        Seq::empty()
    } else if k < chars.len() {
        seq![chars[k as int] as char]
    } else {
        proof {
            let m = chars.len();
            assert(1 <= k / m <= k) by (nonlinear_arith)
                requires
                    1 <= m <= k,
            ;
        }
        synth_name(chars, (k / chars.len() - 1) as nat).push(chars[(k % chars.len()) as int] as char)
    }
}

/// Whether the debug record covers the instruction `ip`.
pub open spec fn live_at(local: LocalView, ip: nat) -> bool {
    local.startpc <= ip < local.endpc
}

/// The name that the debug table gives to the stack slot `slot` at the
/// instruction `ip`: that of the `slot`-th record, counted from `from` on,
/// among those that cover `ip`.
pub open spec fn debug_name(locals: Seq<LocalView>, from: nat, slot: nat, ip: nat) -> Option<
    Seq<char>,
>
    decreases locals.len() - from,
{
    if from >= locals.len() {
        None
    } else if live_at(locals[from as int], ip) {
        if slot == 0 {
            Some(locals[from as int].varname)
        } else {
            debug_name(locals, from + 1, (slot - 1) as nat, ip)
        }
    } else {
        debug_name(locals, from + 1, slot, ip)
    }
}

/// How many slots directly below `slot` were filled by the same instruction
/// as `slot`.
pub open spec fn run_below(stack: Seq<Ip>, slot: int) -> nat
    decreases slot,
{
    if slot <= 0 || slot >= stack.len() || stack[slot - 1] != stack[slot] {
        0
    } else {
        1 + run_below(stack, slot - 1)
    }
}

/// The nodes that are present, in order.
pub open spec fn present(nodes: Seq<Option<NodeView>>) -> Seq<NodeView>
    decreases nodes.len(),
{
    if nodes.len() == 0 {
        Seq::empty()
    } else {
        match nodes.last() {
            Some(node) => present(nodes.drop_last()).push(node),
            None => present(nodes.drop_last()),
        }
    }
}

/// The nodes with those from `lo` up to `hi` taken out.
pub open spec fn clear_range(nodes: Seq<Option<NodeView>>, lo: int, hi: int) -> Seq<
    Option<NodeView>,
> {
    Seq::new(
        nodes.len(),
        |i: int|
            if lo <= i < hi {
                None
            } else {
                nodes[i]
            },
    )
}

/// The nodes from `lo` up to `hi` that are present; none where the range is
/// empty or reaches outside.
pub open spec fn present_range(nodes: Seq<Option<NodeView>>, lo: int, hi: int) -> Seq<NodeView> {
    if 0 <= lo <= hi <= nodes.len() {
        present(nodes.subrange(lo, hi))
    } else {
        Seq::empty()
    }
}

/// The expression that concatenates `values`, grouped to the right.
pub open spec fn concat_of(values: Seq<ExprView>) -> ExprView
    recommends
        values.len() > 0,
    decreases values.len(),
{
    if values.len() == 0 {
        ExprView::Literal(LitView::Nil)
    } else if values.len() == 1 {
        values[0]
    } else {
        ExprView::Binary {
            op: BinOp::Concat,
            lhs: Box::new(values[0]),
            rhs: Box::new(concat_of(values.drop_first())),
        }
    }
}

/// The statement that a head becomes when its block closes over `body`.
pub open spec fn close_head(head: PartialView, body: Seq<NodeView>) -> StmtView {
    match head {
        PartialView::IfHead { expr, then_: None } => StmtView::If {
            head: expr,
            then_: body,
            else_: None,
        },
        PartialView::IfHead { expr, then_: Some(arm) } => StmtView::If {
            head: expr,
            then_: arm,
            else_: Some(body),
        },
        PartialView::WhileHead { expr } => StmtView::While { head: expr, body },
        PartialView::ForHead(head) => StmtView::For { head, body },
    }
}

impl LiftState {
    /// The state before the first of `n` instructions.
    pub open spec fn initial(n: nat) -> LiftState {
        LiftState {
            stack: Seq::empty(),
            nodes: Seq::new(n, |i: int| None::<NodeView>),
            blocks: Seq::empty(),
            local_end: 0,
            names: 0,
        }
    }

    /// Every instruction that the stack or a block span points to has a
    /// slot among the nodes, and an instruction pointer can hold every index.
    pub open spec fn wf(self) -> bool {
        &&& self.nodes.len() <= u32::MAX
        &&& forall|i: int| 0 <= i < self.stack.len() ==> (#[trigger] self.stack[i]).0 < self.nodes.len()
        &&& forall|i: int|
            0 <= i < self.blocks.len() ==> (#[trigger] self.blocks[i]).start.0 < self.nodes.len()
                && self.blocks[i].end.0 <= self.nodes.len()
    }

    /// One more slot on the stack, filled by `ip`.
    pub open spec fn push(self, ip: Ip) -> LiftState {
        LiftState { stack: self.stack.push(ip), ..self }
    }

    /// `n` more slots on the stack, all filled by `ip`.
    pub open spec fn push_n(self, ip: Ip, n: nat) -> LiftState {
        LiftState { stack: self.stack + Seq::new(n, |i: int| ip), ..self }
    }

    /// The stack cut down to its lowest `n` slots.
    pub open spec fn truncate(self, n: int) -> LiftState {
        LiftState { stack: self.stack.subrange(0, n), ..self }
    }

    /// `node` stored under the instruction `at`.
    pub open spec fn put(self, at: int, node: NodeView) -> LiftState {
        LiftState { nodes: self.nodes.update(at, Some(node)), ..self }
    }

    /// The slot of the instruction `at` emptied.
    pub open spec fn clear(self, at: int) -> LiftState {
        LiftState { nodes: self.nodes.update(at, None), ..self }
    }

    /// Takes the expression stored under `at` out of its slot.
    pub open spec fn take_expr(self, at: Ip) -> Result<(ExprView, LiftState), ErrorView> {
        match self.nodes[at.0 as int] {
            None => Err(node_none()),
            Some(NodeView::Expr(e)) => Ok((e, self.clear(at.0 as int))),
            Some(_) => Err(expr_expected()),
        }
    }

    /// Takes the expressions stored under `ips` out of their slots, in order.
    pub open spec fn take_exprs(self, ips: Seq<Ip>) -> Result<(Seq<ExprView>, LiftState), ErrorView>
        decreases ips.len(),
    {
        if ips.len() == 0 {
            Ok((Seq::empty(), self))
        } else {
            match self.take_exprs(ips.drop_last()) {
                Err(e) => Err(e),
                Ok((front, s)) => match s.take_expr(ips.last()) {
                    Err(e) => Err(e),
                    Ok((e, s)) => Ok((front.push(e), s)),
                },
            }
        }
    }

    /// The name for the variable in the stack slot `slot` that comes to life
    /// at `ip`, and the number of made-up names after it was chosen: the
    /// name that the debug table gives, or else the next made-up name.
    pub open spec fn fresh_name(self, p: ProtoView, slot: nat, ip: nat) -> Result<
        (Seq<char>, nat),
        ErrorView,
    > {
        match debug_name(p.locals, 0, slot, ip) {
            Some(name) => Ok((name, self.names)),
            None => if self.names >= u64::MAX {
                Err(too_many_locals())
            } else {
                Ok((synth_name(letters(), self.names), self.names + 1))
            },
        }
    }

    /// Turns the fragment stored under `at`, which fills the stack slot
    /// `slot`, into the declaration of a local variable, where it is still a
    /// bare expression. The name is that of the debug table for the slot at
    /// `ip`, or else the next made-up name. A slot that is empty or holds a
    /// declaration already stays as it is. Any other statement, and every
    /// partially built statement, cannot be promoted.
    pub open spec fn promote(self, p: ProtoView, slot: nat, at: Ip, ip: nat) -> Lifted {
        match self.nodes[at.0 as int] {
            None => Ok(self),
            Some(NodeView::Stmt(StmtView::LocalVar { .. })) => Ok(self),
            Some(NodeView::Expr(rhs)) => if self.local_end >= u32::MAX {
                Err(too_many_locals())
            } else {
                match self.fresh_name(p, slot, ip) {
                    Err(e) => Err(e),
                    Ok((name, names)) => Ok(
                        LiftState {
                            nodes: self.nodes.update(
                                at.0 as int,
                                Some(NodeView::Stmt(StmtView::LocalVar { name, rhs })),
                            ),
                            local_end: self.local_end + 1,
                            names,
                            ..self
                        },
                    ),
                }
            },
            Some(NodeView::Stmt(_)) => Err(promote_statement()),
            Some(NodeView::Partial(_)) => Err(promote_partial()),
        }
    }

    /// Whether the stack slot `slot` belongs to a `for` that is still open:
    /// its fragment is the head of the loop, which declares the variables of
    /// its slots itself.
    pub open spec fn loop_slot(self, slot: nat) -> bool {
        self.nodes[self.stack[slot as int].0 as int] matches Some(
            NodeView::Partial(PartialView::ForHead(_)),
        )
    }

    /// What reading the stack slot `slot` as a local at `ip` makes of its
    /// fragment: the fragment is promoted, unless the slot belongs to a
    /// `for` that is still open, where nothing is promoted.
    pub open spec fn promote_slot(self, p: ProtoView, slot: nat, ip: nat) -> Lifted
        recommends
            slot < self.stack.len(),
    {
        if self.loop_slot(slot) {
            Ok(self)
        } else {
            self.promote(p, slot, self.stack[slot as int], ip)
        }
    }

    /// Reads the stack slots from `from` up as locals, lowest first.
    pub open spec fn promote_from(self, p: ProtoView, from: nat, ip: nat) -> Lifted
        decreases self.stack.len() - from,
    {
        if from >= self.stack.len() {
            Ok(self)
        } else {
            match self.promote_slot(p, from, ip) {
                Err(e) => Err(e),
                Ok(s) => s.promote_from(p, from + 1, ip),
            }
        }
    }

    /// The name of the local variable in the stack slot `slot`: that of the
    /// declaration which the slot's fragment has become, or that which the
    /// head of a `for` gives to the slot. A numeric `for` fills three slots,
    /// the first of which is its variable; a generic `for` fills four, the
    /// last two of which are its key and its value.
    pub open spec fn name_of_slot(self, slot: nat) -> Result<Seq<char>, ErrorView> {
        if slot >= self.stack.len() {
            Err(stack_underflow())
        } else {
            match self.nodes[self.stack[slot as int].0 as int] {
                None => Err(node_none()),
                Some(NodeView::Stmt(StmtView::LocalVar { name, .. })) => Ok(name),
                Some(NodeView::Partial(PartialView::ForHead(ForHeadView::Numeric { var, .. }))) => if run_below(
                    self.stack,
                    slot as int,
                ) == 0 {
                    Ok(var)
                } else {
                    Err(hidden_slot())
                },
                Some(
                    NodeView::Partial(PartialView::ForHead(ForHeadView::Generic { key, value, .. })),
                ) => if run_below(self.stack, slot as int) == 2 {
                    Ok(key)
                } else if run_below(self.stack, slot as int) == 3 {
                    Ok(value)
                } else {
                    Err(hidden_slot())
                },
                Some(NodeView::Stmt(_)) => Err(name_of_statement()),
                Some(NodeView::Expr(_)) => Err(name_of_expression()),
                Some(NodeView::Partial(_)) => Err(name_of_partial()),
            }
        }
    }

    /// Stores a literal under `ip` and pushes it.
    pub open spec fn push_literal(self, ip: Ip, lit: LitView) -> LiftState {
        self.put(ip.0 as int, NodeView::Expr(ExprView::Literal(lit))).push(ip)
    }

    /// `PushNil`: the nil literal under `ip`, and `n` slots that point to it.
    pub open spec fn push_nil(self, ip: Ip, n: nat) -> LiftState {
        self.put(ip.0 as int, NodeView::Expr(ExprView::Literal(LitView::Nil))).push_n(ip, n)
    }

    /// `PushNum` and `PushNegNum`: the number constant `id`, negated where
    /// `negate` is set.
    pub open spec fn push_num(self, p: ProtoView, ip: Ip, id: nat, negate: bool) -> Lifted {
        if id >= p.constants.numbers.len() {
            Err(constant_out_of_range())
        } else {
            Ok(
                self.push_literal(
                    ip,
                    LitView::Num(
                        if negate {
                            p.constants.numbers[id as int].spec_negated()
                        } else {
                            p.constants.numbers[id as int]
                        },
                    ),
                ),
            )
        }
    }

    /// `PushString`: the string constant `id`.
    pub open spec fn push_string(self, p: ProtoView, ip: Ip, id: nat) -> Lifted {
        if id >= p.constants.strings.len() {
            Err(constant_out_of_range())
        } else {
            Ok(self.push_literal(ip, LitView::Str(p.constants.strings[id as int])))
        }
    }

    /// `GetLocal`: the slot is read as a local, which makes its fragment a
    /// declaration, and an access to the name of the slot is pushed.
    pub open spec fn get_local(self, p: ProtoView, ip: Ip, slot: nat) -> Lifted {
        if slot >= self.stack.len() {
            Err(stack_underflow())
        } else {
            match self.promote_slot(p, slot, ip.0 as nat) {
                Err(e) => Err(e),
                Ok(s) => match s.name_of_slot(slot) {
                    Err(e) => Err(e),
                    Ok(name) => Ok(
                        s.put(ip.0 as int, NodeView::Expr(ExprView::Access(name))).push(ip),
                    ),
                },
            }
        }
    }

    /// `GetGlobal`: an access to the global named by the string constant
    /// `id` is pushed.
    pub open spec fn get_global(self, p: ProtoView, ip: Ip, id: nat) -> Lifted {
        if id >= p.constants.strings.len() {
            Err(constant_out_of_range())
        } else {
            Ok(
                self.put(
                    ip.0 as int,
                    NodeView::Expr(ExprView::Access(p.constants.strings[id as int])),
                ).push(ip),
            )
        }
    }

    /// `SetLocal`: the slot is read as a local, which makes its fragment a
    /// declaration, and the top of the stack is assigned to the name of the
    /// slot.
    pub open spec fn set_local(self, p: ProtoView, ip: Ip, slot: nat) -> Lifted {
        if slot >= self.stack.len() {
            Err(stack_underflow())
        } else {
            match self.promote_slot(p, slot, ip.0 as nat) {
                Err(e) => Err(e),
                Ok(s) => match s.truncate(s.stack.len() - 1).take_expr(s.stack.last()) {
                    Err(e) => Err(e),
                    Ok((rhs, s)) => match s.name_of_slot(slot) {
                        Err(e) => Err(e),
                        Ok(name) => Ok(
                            s.put(ip.0 as int, NodeView::Stmt(StmtView::Assign { name, rhs })),
                        ),
                    },
                },
            }
        }
    }

    /// `SetGlobal`: the top of the stack is assigned to the global named by
    /// the string constant `id`. The constant is looked up before the value
    /// is taken.
    pub open spec fn set_global(self, p: ProtoView, ip: Ip, id: nat) -> Lifted {
        if id >= p.constants.strings.len() {
            Err(constant_out_of_range())
        } else if self.stack.len() == 0 {
            Err(stack_underflow())
        } else {
            match self.truncate(self.stack.len() - 1).take_expr(self.stack.last()) {
                Err(e) => Err(e),
                Ok((rhs, s)) => Ok(
                    s.put(
                        ip.0 as int,
                        NodeView::Stmt(
                            StmtView::Assign { name: p.constants.strings[id as int], rhs },
                        ),
                    ),
                ),
            }
        }
    }

    /// Takes the two operands of a binary operation off the stack: the
    /// right one from the top, the left one from below it.
    pub open spec fn pop_operands(self) -> Result<(ExprView, ExprView, LiftState), ErrorView> {
        if self.stack.len() < 2 {
            Err(stack_underflow())
        } else {
            let rhs_ip = self.stack[self.stack.len() - 1];
            let lhs_ip = self.stack[self.stack.len() - 2];
            match self.truncate(self.stack.len() - 2).take_expr(rhs_ip) {
                Err(e) => Err(e),
                Ok((rhs, s)) => match s.take_expr(lhs_ip) {
                    Err(e) => Err(e),
                    Ok((lhs, s)) => Ok((lhs, rhs, s)),
                },
            }
        }
    }

    /// A binary operation: both operands are replaced by the operation.
    pub open spec fn binary_op(self, ip: Ip, op: BinOp) -> Lifted {
        match self.pop_operands() {
            Err(e) => Err(e),
            Ok((lhs, rhs, s)) => Ok(
                s.put(
                    ip.0 as int,
                    NodeView::Expr(
                        ExprView::Binary { op, lhs: Box::new(lhs), rhs: Box::new(rhs) },
                    ),
                ).push(ip),
            ),
        }
    }

    /// `AddI`: the top of the stack is replaced by its sum with the inlined
    /// integer.
    pub open spec fn add_int(self, ip: Ip, value: i32) -> Lifted {
        if self.stack.len() == 0 {
            Err(stack_underflow())
        } else {
            match self.truncate(self.stack.len() - 1).take_expr(self.stack.last()) {
                Err(e) => Err(e),
                Ok((lhs, s)) => Ok(
                    s.put(
                        ip.0 as int,
                        NodeView::Expr(
                            ExprView::Binary {
                                op: BinOp::Add,
                                lhs: Box::new(lhs),
                                rhs: Box::new(ExprView::Literal(LitView::Int(value))),
                            },
                        ),
                    ).push(ip),
                ),
            }
        }
    }

    /// A unary operation: the operand is replaced by the operation.
    pub open spec fn unary_op(self, ip: Ip, op: UnOp) -> Lifted {
        if self.stack.len() == 0 {
            Err(stack_underflow())
        } else {
            match self.truncate(self.stack.len() - 1).take_expr(self.stack.last()) {
                Err(e) => Err(e),
                Ok((rhs, s)) => Ok(
                    s.put(
                        ip.0 as int,
                        NodeView::Expr(ExprView::Unary { op, rhs: Box::new(rhs) }),
                    ).push(ip),
                ),
            }
        }
    }

    /// `Concat`: the top `n` values are replaced by their concatenation.
    pub open spec fn concat(self, ip: Ip, n: nat) -> Lifted {
        if n == 0 || n > self.stack.len() {
            Err(stack_underflow())
        } else {
            let base = self.stack.len() - n;
            match self.truncate(base).take_exprs(self.stack.subrange(base, self.stack.len() as int)) {
                Err(e) => Err(e),
                Ok((values, s)) => Ok(
                    s.put(ip.0 as int, NodeView::Expr(concat_of(values))).push(ip),
                ),
            }
        }
    }

    /// `Call`: the callee at the stack offset `offset` and the arguments
    /// above it are replaced by the results of the call. A call without
    /// results is a statement; any other is an expression that fills one
    /// slot for each result, or one slot where the count is 255, which
    /// stands for all the results there are.
    pub open spec fn call(self, ip: Ip, offset: nat, results: nat) -> Lifted {
        if offset >= self.stack.len() {
            Err(stack_underflow())
        } else {
            let callee_ip = self.stack[offset as int];
            let arg_ips = self.stack.subrange(offset as int + 1, self.stack.len() as int);
            let multret = results == 255;
            let pushed = if multret {
                1
            } else {
                results
            };
            match self.truncate(offset as int).push_n(ip, pushed).take_expr(callee_ip) {
                Err(e) => Err(e),
                Ok((name, s)) => match s.take_exprs(arg_ips) {
                    Err(e) => Err(e),
                    Ok((args, s)) => Ok(
                        s.put(
                            ip.0 as int,
                            if results == 0 {
                                NodeView::Stmt(StmtView::Call { name, args, multret })
                            } else {
                                NodeView::Expr(
                                    ExprView::Call { name: Box::new(name), args, multret },
                                )
                            },
                        ),
                    ),
                },
            }
        }
    }

    /// `Return`: the top `n` values leave the stack as the list of a
    /// `return` statement.
    pub open spec fn ret(self, ip: Ip, n: nat) -> Lifted {
        if n > self.stack.len() {
            Err(stack_underflow())
        } else {
            let base = self.stack.len() - n;
            match self.truncate(base).take_exprs(self.stack.subrange(base, self.stack.len() as int)) {
                Err(e) => Err(e),
                Ok((values, s)) => Ok(s.put(ip.0 as int, NodeView::Stmt(StmtView::Return(values)))),
            }
        }
    }

    /// The stack without its top `n` slots; slots that are gone no longer
    /// count as locals.
    pub open spec fn drop_slots(self, n: nat) -> LiftState
        recommends
            n <= self.stack.len(),
    {
        LiftState {
            stack: self.stack.subrange(0, self.stack.len() - n),
            local_end: if self.local_end > self.stack.len() - n {
                (self.stack.len() - n) as nat
            } else {
                self.local_end
            },
            ..self
        }
    }

    /// `Pop`: the top `n` slots leave the stack. To pop more slots than the
    /// stack holds is an underflow.
    pub open spec fn pop(self, n: nat) -> Lifted {
        if n > self.stack.len() {
            Err(stack_underflow())
        } else {
            Ok(self.drop_slots(n))
        }
    }

    /// A conditional jump: opens the span of an `if` from `ip` to the
    /// destination `ip + 1 + rel`, with the comparison of the top two values
    /// as its condition.
    pub open spec fn cond_jump(self, ip: Ip, op: CondOp, rel: int) -> Lifted {
        let end = ip.0 + 1 + rel;
        if self.stack.len() < 2 {
            Err(stack_underflow())
        } else if end < 0 || end > self.nodes.len() {
            Err(jump_out_of_bounds())
        } else {
            match self.pop_operands() {
                Err(e) => Err(e),
                Ok((lhs, rhs, s)) => Ok(
                    LiftState {
                        blocks: s.blocks.push(BlockSpan { start: ip, end: Ip(end as u32) }),
                        ..s.put(
                            ip.0 as int,
                            NodeView::Partial(
                                PartialView::IfHead {
                                    expr: CondView::Binary { op, lhs, rhs },
                                    then_: None,
                                },
                            ),
                        )
                    },
                ),
            }
        }
    }

    /// `Jump`, as the last instruction of the innermost open `if`. A jump
    /// forwards ends the first arm: the fragments of the span become that
    /// arm, and the span now ends at the destination, to collect the `else`
    /// arm. A jump backwards is the back edge of a loop: the `if` becomes a
    /// `while`. Any other jump is refused.
    pub open spec fn jump(self, ip: Ip, rel: int) -> Lifted {
        let dest = ip.0 + 1 + rel;
        if dest < 0 || dest > self.nodes.len() {
            Err(jump_out_of_bounds())
        } else if self.blocks.len() == 0 || self.blocks.last().end.0 != ip.0 + 1 {
            Err(unstructured_jump())
        } else {
            let start = self.blocks.last().start.0 as int;
            match self.nodes[start] {
                Some(NodeView::Partial(PartialView::IfHead { expr, then_: None })) => if rel < 0 {
                    Ok(self.put(start, NodeView::Partial(PartialView::WhileHead { expr })))
                } else {
                    Ok(
                        LiftState {
                            nodes: clear_range(self.nodes, start + 1, ip.0 as int).update(
                                start,
                                Some(
                                    NodeView::Partial(
                                        PartialView::IfHead {
                                            expr,
                                            then_: Some(
                                                present_range(self.nodes, start + 1, ip.0 as int),
                                            ),
                                        },
                                    ),
                                ),
                            ),
                            blocks: self.blocks.drop_last().push(
                                BlockSpan { start: self.blocks.last().start, end: Ip(dest as u32) },
                            ),
                            ..self
                        },
                    )
                },
                _ => Err(unstructured_jump()),
            }
        }
    }

    /// `ForPrep`: opens the span of a numeric `for` from `ip` to the
    /// destination `ip + 1 + rel`. The top three values are its start, its
    /// limit and its step; their slots now belong to the loop, the lowest to
    /// its variable, which gets the name for that slot in the body.
    pub open spec fn for_prep(self, p: ProtoView, ip: Ip, rel: int) -> Lifted {
        let end = ip.0 + 1 + rel;
        if self.stack.len() < 3 {
            Err(stack_underflow())
        } else if end < 0 || end > self.nodes.len() {
            Err(jump_out_of_bounds())
        } else {
            let base = self.stack.len() - 3;
            match self.truncate(base).push_n(ip, 3).take_exprs(
                self.stack.subrange(base, self.stack.len() as int),
            ) {
                Err(e) => Err(e),
                Ok((values, s)) => match s.fresh_name(p, base as nat, ip.0 as nat + 1) {
                    Err(e) => Err(e),
                    Ok((var, names)) => Ok(
                        LiftState {
                            blocks: s.blocks.push(BlockSpan { start: ip, end: Ip(end as u32) }),
                            names,
                            ..s.put(
                                ip.0 as int,
                                NodeView::Partial(
                                    PartialView::ForHead(
                                        ForHeadView::Numeric {
                                            var,
                                            start: values[0],
                                            limit: values[1],
                                            step: values[2],
                                        },
                                    ),
                                ),
                            )
                        },
                    ),
                },
            }
        }
    }

    /// `LForPrep`: opens the span of a generic `for` from `ip` to the
    /// destination `ip + 1 + rel`. The top value is its table; the loop
    /// fills that slot and three more, the last two with its key and its
    /// value, which get the names for those slots in the body.
    pub open spec fn lfor_prep(self, p: ProtoView, ip: Ip, rel: int) -> Lifted {
        let end = ip.0 + 1 + rel;
        if self.stack.len() < 1 {
            Err(stack_underflow())
        } else if end < 0 || end > self.nodes.len() {
            Err(jump_out_of_bounds())
        } else {
            let base = self.stack.len() - 1;
            match self.truncate(base).push_n(ip, 4).take_expr(self.stack.last()) {
                Err(e) => Err(e),
                Ok((table, s)) => match s.fresh_name(p, (base + 2) as nat, ip.0 as nat + 1) {
                    Err(e) => Err(e),
                    Ok((key, names)) => match (LiftState { names, ..s }).fresh_name(
                        p,
                        (base + 3) as nat,
                        ip.0 as nat + 1,
                    ) {
                        Err(e) => Err(e),
                        Ok((value, names)) => Ok(
                            LiftState {
                                blocks: s.blocks.push(BlockSpan { start: ip, end: Ip(end as u32) }),
                                names,
                                ..s.put(
                                    ip.0 as int,
                                    NodeView::Partial(
                                        PartialView::ForHead(
                                            ForHeadView::Generic { key, value, table },
                                        ),
                                    ),
                                )
                            },
                        ),
                    },
                },
            }
        }
    }

    /// `ForLoop` and `LForLoop`: the back edge of a `for`, whose span has
    /// ended here. The `slots` slots of the loop leave the stack.
    pub open spec fn for_loop(self, ip: Ip, rel: int, slots: nat) -> Lifted {
        let dest = ip.0 + 1 + rel;
        if self.stack.len() < slots {
            Err(stack_underflow())
        } else if dest < 0 || dest > self.nodes.len() {
            Err(jump_out_of_bounds())
        } else {
            Ok(self.drop_slots(slots))
        }
    }

    /// Closes the innermost open span: the head at its start and the
    /// fragments inside it become one statement, stored at the start.
    #[verifier::opaque]
    pub open spec fn close_block(self) -> Lifted
        recommends
            self.blocks.len() > 0,
    {
        let start = self.blocks.last().start.0 as int;
        let end = self.blocks.last().end.0 as int;
        match self.nodes[start] {
            None => Err(node_none()),
            Some(NodeView::Partial(head)) => Ok(
                LiftState {
                    nodes: clear_range(self.nodes, start + 1, end).update(
                        start,
                        Some(
                            NodeView::Stmt(
                                close_head(head, present_range(self.nodes, start + 1, end)),
                            ),
                        ),
                    ),
                    blocks: self.blocks.drop_last(),
                    ..self
                },
            ),
            Some(_) => Err(partial_expected()),
        }
    }

    /// The state in which the instruction `ip` is carried out: where `ip`
    /// is the end of the innermost open span, that span is closed first.
    pub open spec fn enter(self, ip: nat) -> Lifted {
        if self.blocks.len() > 0 && self.blocks.last().end.0 == ip {
            self.close_block()
        } else {
            Ok(self)
        }
    }

    /// What the instruction `op` at `ip` makes of the state.
    #[verifier::opaque]
    pub open spec fn apply(self, p: ProtoView, ip: Ip, op: Op) -> Lifted {
        match op {
            Op::Return { results } => self.ret(ip, results as nat),
            Op::Call { stack_offset, results } => self.call(ip, stack_offset as nat, results as nat),
            Op::PushNil { n } => Ok(self.push_nil(ip, n as nat)),
            Op::Pop { n } => self.pop(n as nat),
            Op::PushInt { signed } => Ok(self.push_literal(ip, LitView::Int(signed))),
            Op::PushString { id } => self.push_string(p, ip, id as nat),
            Op::PushNum { id } => self.push_num(p, ip, id as nat, false),
            Op::PushNegNum { id } => self.push_num(p, ip, id as nat, true),
            Op::GetLocal { offset } => self.get_local(p, ip, offset as nat),
            Op::GetGlobal { string_id } => self.get_global(p, ip, string_id as nat),
            Op::SetLocal { offset } => self.set_local(p, ip, offset as nat),
            Op::SetGlobal { string_id } => self.set_global(p, ip, string_id as nat),
            Op::Add => self.binary_op(ip, BinOp::Add),
            Op::AddI { signed } => self.add_int(ip, signed),
            Op::Sub => self.binary_op(ip, BinOp::Sub),
            Op::Mult => self.binary_op(ip, BinOp::Mult),
            Op::Div => self.binary_op(ip, BinOp::Div),
            Op::Pow => self.binary_op(ip, BinOp::Pow),
            Op::Concat { n } => self.concat(ip, n as nat),
            Op::Minus => self.unary_op(ip, UnOp::Minus),
            Op::Not => self.unary_op(ip, UnOp::Not),
            Op::JumpNe { rel } => self.cond_jump(ip, CondOp::Ne, rel as int),
            Op::JumpEq { rel } => self.cond_jump(ip, CondOp::Eq, rel as int),
            Op::JumpLt { rel } => self.cond_jump(ip, CondOp::Lt, rel as int),
            Op::JumpLe { rel } => self.cond_jump(ip, CondOp::Le, rel as int),
            Op::JumpGt { rel } => self.cond_jump(ip, CondOp::Gt, rel as int),
            Op::JumpGe { rel } => self.cond_jump(ip, CondOp::Ge, rel as int),
            Op::Jump { rel } => self.jump(ip, rel as int),
            Op::ForPrep { rel } => self.for_prep(p, ip, rel as int),
            Op::ForLoop { rel } => self.for_loop(ip, rel as int, 3),
            Op::LForPrep { rel } => self.lfor_prep(p, ip, rel as int),
            Op::LForLoop { rel } => self.for_loop(ip, rel as int, 4),
            _ => Err(unsupported_opcode()),
        }
    }

    /// The end of the function at `ip`: what is left on the stack are
    /// locals, so their fragments become declarations; the stack is cleared,
    /// and the fragments that are present make the root block, which must
    /// hold no partially built statement.
    #[verifier::opaque]
    pub open spec fn finish(self, p: ProtoView, ip: nat) -> Result<
        (Seq<NodeView>, LiftState),
        ErrorView,
    > {
        match self.promote_from(p, 0, ip) {
            Err(e) => Err(e),
            Ok(s) => if completed(present(s.nodes)) {
                Ok(
                    (
                        present(s.nodes),
                        LiftState {
                            stack: Seq::empty(),
                            nodes: Seq::new(s.nodes.len(), |i: int| None::<NodeView>),
                            local_end: 0,
                            ..s
                        },
                    ),
                )
            } else {
                Err(partial_leaked())
            },
        }
    }

    /// Carries out the instructions from `ip` on, up to the first `End` or
    /// to the last instruction. An error carries the index of the
    /// instruction at which it arose.
    pub open spec fn run(self, p: ProtoView, ip: nat) -> Result<
        (Seq<NodeView>, LiftState),
        ErrorView,
    >
        decreases p.ops.len() - ip,
    {
        if ip >= p.ops.len() {
            match self.finish(p, ip) {
                Err(e) => Err(e.at_instruction(ip)),
                Ok(done) => Ok(done),
            }
        } else {
            match self.enter(ip) {
                Err(e) => Err(e.at_instruction(ip)),
                Ok(s) => if p.ops[ip as int] == Op::End {
                    match s.finish(p, ip) {
                        Err(e) => Err(e.at_instruction(ip)),
                        Ok(done) => Ok(done),
                    }
                } else {
                    match s.apply(p, Ip(ip as u32), p.ops[ip as int]) {
                        Err(e) => Err(e.at_instruction(ip)),
                        Ok(s) => s.run(p, ip + 1),
                    }
                },
            }
        }
    }
}

/// The syntax tree of a prototype: the root block that the lifter ends
/// with when it starts from the empty state, together with that last state.
/// A prototype with more instructions than an instruction pointer can tell
/// apart is refused at the last instruction that one can point to.
pub open spec fn lift(p: ProtoView) -> Result<(Seq<NodeView>, LiftState), ErrorView> {
    if p.ops.len() > u32::MAX {
        Err(too_many_instructions().at_instruction(u32::MAX as nat))
    } else {
        LiftState::initial(p.ops.len()).run(p, 0)
    }
}

/// Promotion is idempotent: a fragment that is a declaration stays as it
/// is, and so does every fragment that has just been promoted.
pub proof fn lemma_promote_idempotent(s: LiftState, p: ProtoView, slot: nat, at: Ip, ip: nat)
    requires
        at.0 < s.nodes.len(),
    ensures
        (s.nodes[at.0 as int] matches Some(NodeView::Stmt(StmtView::LocalVar { .. })))
            ==> s.promote(p, slot, at, ip) == Ok::<LiftState, ErrorView>(s),
        match s.promote(p, slot, at, ip) {
            Ok(t) => t.promote(p, slot, at, ip) == Ok::<LiftState, ErrorView>(t),
            Err(_) => true,
        },
{
}

/// Promotion fails on every partially built statement and on every
/// statement but a declaration.
pub proof fn lemma_promote_fails(s: LiftState, p: ProtoView, slot: nat, at: Ip, ip: nat)
    ensures
        (s.nodes[at.0 as int] matches Some(NodeView::Partial(_))) ==> s.promote(p, slot, at, ip)
            == Err::<LiftState, ErrorView>(promote_partial()),
        (s.nodes[at.0 as int] matches Some(NodeView::Stmt(stmt)) && !(stmt is LocalVar))
            ==> s.promote(p, slot, at, ip) == Err::<LiftState, ErrorView>(promote_statement()),
{
}

/// Where the debug table covers a stack slot, the declaration that the
/// slot's expression is promoted to takes the name of the table, and that
/// is the name of the slot from then on.
pub proof fn lemma_promoted_slot_takes_debug_name(
    s: LiftState,
    p: ProtoView,
    slot: nat,
    ip: nat,
    name: Seq<char>,
)
    requires
        slot < s.stack.len(),
        s.stack[slot as int].0 < s.nodes.len(),
        s.nodes[s.stack[slot as int].0 as int] matches Some(NodeView::Expr(_)),
        s.local_end < u32::MAX,
        debug_name(p.locals, 0, slot, ip) == Some(name),
    ensures
        s.promote_slot(p, slot, ip) is Ok,
        s.promote_slot(p, slot, ip)->Ok_0.name_of_slot(slot) == Ok::<Seq<char>, ErrorView>(name),
        s.promote_slot(p, slot, ip)->Ok_0.nodes[s.stack[slot as int].0 as int] == Some(
            NodeView::Stmt(
                StmtView::LocalVar {
                    name,
                    rhs: s.nodes[s.stack[slot as int].0 as int]->0->Expr_0,
                },
            ),
        ),
{
}

/// Whatever state the lifter starts from, a tree that it ends with holds no
/// partially built statement, and it leaves the simulated stack empty.
pub proof fn lemma_run_leaves_nothing(s: LiftState, p: ProtoView, ip: nat)
    ensures
        match s.run(p, ip) {
            Ok((root, last)) => completed(root) && last.stack.len() == 0,
            Err(_) => true,
        },
    decreases p.ops.len() - ip,
{
    reveal(LiftState::finish);
    if ip < p.ops.len() {
        match s.enter(ip) {
            Ok(entered) => {
                if p.ops[ip as int] != Op::End {
                    match entered.apply(p, Ip(ip as u32), p.ops[ip as int]) {
                        Ok(next) => {
                            lemma_run_leaves_nothing(next, p, ip + 1);
                        },
                        Err(_) => {},
                    }
                }
            },
            Err(_) => {},
        }
    }
}

/// The tree of a prototype holds no partially built statement, and the
/// lifter leaves the simulated stack empty.
pub proof fn lemma_lift_leaves_nothing(p: ProtoView)
    ensures
        match lift(p) {
            Ok((root, last)) => completed(root) && last.stack.len() == 0,
            Err(_) => true,
        },
{
    lemma_run_leaves_nothing(LiftState::initial(p.ops.len()), p, 0);
}

} // verus!
