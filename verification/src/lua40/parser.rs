//! Bytecode parser.
//!
//! Analyzes bytecode instructions to generate an abstract syntax tree.
use vstd::prelude::*;
use vstd::string::StringExecFns;
use crate::errors::{Error, ErrorView};
use crate::text::push_char;
use crate::lua40::ast::{
    exprs_view, nodes_view, Assign, BinExpr, BinOp, Block, Call, CondExpr, CondOp, Expr, ExprView,
    ForBlock, ForHead, Ident, IfBlock, IfHead, Lit, LocalVar, Node, NodeView, Partial, Stmt,
    StmtView, Syntax, UnExpr, UnOp, WhileBlock, WhileHead,
};
use crate::lua40::lift::{
    clear_range, concat_of, debug_name, expr_expected, letters, lift, node_none,
    partial_expected, present, present_range, run_below, stack_underflow, synth_name, BlockSpan,
    Ip, LiftState, Lifted,
};
use crate::lua40::number::Number;
use crate::lua40::opcode::Op;
use crate::lua40::proto::{locals_view, Local, Proto, ProtoView};

verus! {

/// The error for an instruction that needs more slots than the stack holds.
pub fn err_stack_underflow() -> (e: Error)
    ensures
        e@ == stack_underflow(),
{
    Error::new_parser("operand stack underflow")
}

/// The error for a fragment that is no expression where one is consumed.
pub fn err_expr_expected() -> (e: Error)
    ensures
        e@ == expr_expected(),
{
    Error::new_parser("expected expression")
}

/// The error for a block whose head is no partially built statement.
pub fn err_partial_expected() -> (e: Error)
    ensures
        e@ == partial_expected(),
{
    Error::new_parser("expected partial statement")
}

/// The error for a slot whose fragment has been consumed already.
pub fn err_node_none() -> (e: Error)
    ensures
        e@ == node_none(),
{
    Error::new_parser("no syntax node for bytecode")
}

impl Ip {
    /// The index of the instruction.
    pub fn as_usize(self) -> (n: usize)
        ensures
            n == self.0,
    {
        self.0 as usize
    }
}

/// Maker of names for local variables.
pub struct Namer {
    /// Set of characters that can be used to generate names.
    pub chars: Vec<u8>,
    /// How many names have been made.
    pub count: u64,
}

impl Namer {
    /// A namer over the alphabet `char_set` that has made no name yet.
    pub fn new(char_set: &[u8]) -> (namer: Namer)
        ensures
            namer.chars@ == char_set@,
            namer.count == 0,
    {
        let mut chars: Vec<u8> = Vec::new();
        let mut i: usize = 0;
        while i < char_set.len()
            invariant
                i <= char_set.len(),
                chars@ == char_set@.subrange(0, i as int),
            decreases char_set.len() - i,
        {
            chars.push(char_set[i]);
            i = i + 1;
            assert(chars@ =~= char_set@.subrange(0, i as int));
        }
        assert(char_set@.subrange(0, char_set@.len() as int) =~= char_set@);
        Namer { chars, count: 0 }
    }

    /// Appends the `k`-th name to `out`.
    fn push_name(&self, out: &mut String, k: u64)
        requires
            self.chars@.len() > 0,
        ensures
            final(out)@ == old(out)@ + synth_name(self.chars@, k as nat),
        decreases k,
    {
        let m: u64 = self.chars.len() as u64;
        if k >= m {
            proof {
                assert(1 <= k as nat / m as nat <= k) by (nonlinear_arith)
                    requires
                        1 <= m <= k,
                ;
            }
            self.push_name(out, k / m - 1);
        }
        let ghost upper = out@;
        push_char(out, self.chars[(k % m) as usize] as char);
        proof {
            let chars = self.chars@;
            let c = chars[(k as nat % chars.len()) as int] as char;
            assert(out@ == upper.push(c));
            if k >= m {
                assert(upper == old(out)@ + synth_name(chars, (k as nat / chars.len() - 1) as nat));
                assert(synth_name(chars, k as nat) == synth_name(
                    chars,
                    (k as nat / chars.len() - 1) as nat,
                ).push(c));
            } else {
                vstd::arithmetic::div_mod::lemma_small_mod(k as nat, chars.len());
            }
            assert(out@ =~= old(out)@ + synth_name(chars, k as nat));
        }
    }

    /// The next name: over the lower-case letters `a`, ..., `z`, `aa`,
    /// `ab`, ...
    pub fn next(&mut self) -> (name: String)
        requires
            old(self).chars@.len() > 0,
            old(self).count < u64::MAX,
        ensures
            name@ == synth_name(old(self).chars@, old(self).count as nat),
            final(self).chars == old(self).chars,
            final(self).count == old(self).count + 1,
    {
        let mut buf = String::new();
        self.push_name(&mut buf, self.count);
        self.count = self.count + 1;
        assert(buf@ =~= synth_name(self.chars@, old(self).count as nat));
        buf
    }
}

/// A namer over the lower-case letters that has made no name yet.
fn lower_case_namer() -> (namer: Namer)
    ensures
        namer.chars@ == letters(),
        namer.count == 0,
{
    let namer = Namer::new(
        &[
            97u8, 98u8, 99u8, 100u8, 101u8, 102u8, 103u8, 104u8, 105u8, 106u8, 107u8, 108u8, 109u8,
            110u8, 111u8, 112u8, 113u8, 114u8, 115u8, 116u8, 117u8, 118u8, 119u8, 120u8, 121u8,
            122u8,
        ],
    );
    assert(namer.chars@ =~= letters());
    namer
}

/// The state `now` is the state `start` after the expression under `at`
/// has been promoted: that node is a declaration of the expression, one
/// more local is counted, a name may have been drawn, and nothing else has
/// changed.
pub open spec fn promoted_from(start: LiftState, now: LiftState, at: Ip) -> bool {
    &&& at.0 < start.nodes.len()
    &&& now.stack == start.stack
    &&& now.blocks == start.blocks
    &&& now.local_end == start.local_end + 1
    &&& now.nodes == start.nodes.update(at.0 as int, now.nodes[at.0 as int])
    &&& now.nodes[at.0 as int] matches Some(NodeView::Stmt(StmtView::LocalVar { rhs, .. }))
        && start.nodes[at.0 as int] == Some(NodeView::Expr(rhs))
}

/// The views of a sequence of slots, one by one.
pub open spec fn slots_view(s: Seq<Option<Node>>) -> Seq<Option<NodeView>> {
    Seq::new(
        s.len(),
        |i: int|
            match s[i] {
                Some(node) => Some(node@),
                None => None,
            },
    )
}

/// The lifter of one prototype: it walks the instructions and keeps the
/// simulated stack, the nodes built so far and the open block spans.
pub struct Parser<'a> {
    /// The prototype whose instructions are lifted.
    proto: &'a Proto,
    /// Stack that mimics the operand stack used in the virtual machine.
    ///
    /// The [Ip] points to the bytecode instruction that pushed the
    /// slot item onto the stack.
    stack: Vec<Ip>,
    /// Space for the syntax tree nodes that are being built.
    ///
    /// This buffer has the same number of elements as the function's
    /// bytecode buffer. Each node corresponds to an instruction.
    nodes: Vec<Option<Node>>,
    /// Stack of block spans.
    blocks: Vec<BlockSpan>,
    /// Stack offset where local variables end.
    local_end: u32,
    /// namer for local variables.
    local_namer: Namer,
}

impl<'a> View for Parser<'a> {
    type V = LiftState;

    closed spec fn view(&self) -> LiftState {
        LiftState {
            stack: self.stack@,
            nodes: slots_view(self.nodes@),
            blocks: self.blocks@,
            local_end: self.local_end as nat,
            names: self.local_namer.count as nat,
        }
    }
}

impl<'a> Parser<'a> {
    /// The prototype that this parser lifts.
    pub closed spec fn proto(&self) -> ProtoView {
        self.proto@
    }

    /// The state is well-formed and the names are spelled with the
    /// lower-case letters.
    pub closed spec fn inv(&self) -> bool {
        &&& self@.wf()
        &&& self.local_namer.chars@ == letters()
    }

    /// What a handler owes: where the lifter gives a next state, the
    /// handler reaches it; where it gives an error, the handler fails with
    /// it and leaves the state as it was.
    pub open spec fn steps(
        before: Self,
        after: Self,
        r: Result<(), Error>,
        expected: Lifted,
    ) -> bool {
        &&& after.proto() == before.proto()
        &&& match expected {
            Ok(state) => {
                &&& r is Ok
                &&& after@ == state
                &&& after.inv()
                &&& state.nodes.len() == before@.nodes.len()
            },
            Err(e) => r is Err && r->Err_0@ == e && after@ == before@ && after.inv(),
        }
    }

    /// A parser for `root`, in the state before the first instruction.
    pub fn new(root: &'a Proto) -> (parser: Self)
        ensures
            parser.proto() == root@,
            parser@ == LiftState::initial(root.ops@.len()),
            root.ops@.len() <= u32::MAX ==> parser.inv(),
    {
        let mut parser = Self {
            proto: root,
            stack: Vec::new(),
            nodes: Vec::new(),
            blocks: Vec::new(),
            local_end: 0,
            local_namer: lower_case_namer(),
        };
        parser.reset();
        parser
    }

    /// One more slot on the stack, filled by `ip`.
    fn push_slot(&mut self, ip: Ip)
        requires
            old(self).inv(),
            ip.0 < old(self)@.nodes.len(),
        ensures
            final(self)@ == old(self)@.push(ip),
            final(self).inv(),
            final(self).proto() == old(self).proto(),
    {
        self.stack.push(ip);
        assert forall|i: int| 0 <= i < self@.stack.len() implies (#[trigger] self@.stack[i]).0
            < self@.nodes.len() by {
            if i < old(self)@.stack.len() {
                assert(self@.stack[i] == old(self)@.stack[i]);
            }
        }
        assert forall|i: int| 0 <= i < self@.blocks.len() implies (#[trigger] self@.blocks[i]).start.0
            < self@.nodes.len() && self@.blocks[i].end.0 <= self@.nodes.len() by {
            assert(self@.blocks[i] == old(self)@.blocks[i]);
        }
    }

    /// Stores `node` under the instruction `at`.
    fn put_node(&mut self, at: usize, node: Node)
        requires
            old(self).inv(),
            at < old(self)@.nodes.len(),
        ensures
            final(self)@ == old(self)@.put(at as int, node@),
            final(self).inv(),
            final(self).proto() == old(self).proto(),
    {
        self.nodes[at] = Some(node);
        assert(self@.nodes =~= old(self)@.nodes.update(at as int, Some(node@)));
    }

    /// Takes what is stored under the instruction `at` out of its slot.
    fn take_node(&mut self, at: usize) -> (r: Option<Node>)
        requires
            old(self).inv(),
            at < old(self)@.nodes.len(),
        ensures
            final(self)@ == old(self)@.clear(at as int),
            final(self).inv(),
            final(self).proto() == old(self).proto(),
            match old(self)@.nodes[at as int] {
                Some(node) => r is Some && r->0@ == node,
                None => r is None,
            },
    {
        let r = self.nodes[at].take();
        assert(self@.nodes =~= old(self)@.nodes.update(at as int, None));
        r
    }

    /// Cuts the stack down to its lowest `n` slots and hands out the rest.
    fn split_stack(&mut self, n: usize) -> (rest: Vec<Ip>)
        requires
            old(self).inv(),
            n <= old(self)@.stack.len(),
        ensures
            final(self)@ == old(self)@.truncate(n as int),
            final(self).inv(),
            final(self).proto() == old(self).proto(),
            rest@ == old(self)@.stack.subrange(n as int, old(self)@.stack.len() as int),
            forall|i: int| 0 <= i < rest@.len() ==> (#[trigger] rest@[i]).0 < old(self)@.nodes.len(),
    {
        let rest = self.stack.split_off(n);
        assert forall|i: int| 0 <= i < self@.stack.len() implies (#[trigger] self@.stack[i]).0
            < self@.nodes.len() by {
            assert(self@.stack[i] == old(self)@.stack[i]);
        }
        assert forall|i: int| 0 <= i < self@.blocks.len() implies (#[trigger] self@.blocks[i]).start.0
            < self@.nodes.len() && self@.blocks[i].end.0 <= self@.nodes.len() by {
            assert(self@.blocks[i] == old(self)@.blocks[i]);
        }
        assert forall|i: int| 0 <= i < rest@.len() implies (#[trigger] rest@[i]).0 < old(self)@.nodes.len() by {
            assert(rest@[i] == old(self)@.stack[n + i]);
        }
        rest
    }

    /// `n` more slots on the stack, all filled by `ip`.
    fn push_slots(&mut self, ip: Ip, n: u32)
        requires
            old(self).inv(),
            ip.0 < old(self)@.nodes.len(),
        ensures
            final(self)@ == old(self)@.push_n(ip, n as nat),
            final(self).inv(),
            final(self).proto() == old(self).proto(),
    {
        let mut i: u32 = 0;
        assert(self@.stack =~= old(self)@.stack + Seq::new(0, |j: int| ip));
        while i < n
            invariant
                i <= n,
                self.inv(),
                ip.0 < self@.nodes.len(),
                self.proto() == old(self).proto(),
                self@ == old(self)@.push_n(ip, i as nat),
            decreases n - i,
        {
            self.push_slot(ip);
            i = i + 1;
            assert(self@.stack =~= old(self)@.stack + Seq::new(i as nat, |j: int| ip));
        }
    }

    /// Takes the expression stored under `at` out of its slot. Where there
    /// is none to take, the state stays as it is.
    fn take_expr(&mut self, at: Ip) -> (r: Result<Expr, Error>)
        requires
            old(self).inv(),
            at.0 < old(self)@.nodes.len(),
        ensures
            final(self).proto() == old(self).proto(),
            match old(self)@.take_expr(at) {
                Ok((e, state)) => r is Ok && r->Ok_0@ == e && final(self)@ == state,
                Err(e) => r is Err && r->Err_0@ == e && final(self)@ == old(self)@,
            },
            final(self).inv(),
    {
        match &self.nodes[at.as_usize()] {
            None => {
                return Err(err_node_none());
            },
            Some(Node::Expr(_)) => {},
            Some(_) => {
                return Err(err_expr_expected());
            },
        }
        match self.take_node(at.as_usize()) {
            Some(Node::Expr(expr)) => Ok(expr),
            _ => Err(err_node_none()),
        }
    }

    /// Puts the expressions that were taken out of the first slots of `ips`
    /// back, so that the state is `start` again, from which they were taken.
    fn put_back(&mut self, ips: &Vec<Ip>, exprs: Vec<Expr>, Ghost(start): Ghost<LiftState>)
        requires
            old(self).inv(),
            exprs@.len() <= ips@.len(),
            forall|i: int| 0 <= i < ips@.len() ==> (#[trigger] ips@[i]).0 < old(self)@.nodes.len(),
            start.nodes.len() == old(self)@.nodes.len(),
            start.take_exprs(ips@.subrange(0, exprs@.len() as int)) == Ok::<
                (Seq<ExprView>, LiftState),
                ErrorView,
            >((exprs_view(exprs@), old(self)@)),
        ensures
            final(self)@ == start,
            final(self).inv(),
            final(self).proto() == old(self).proto(),
    {
        let mut exprs = exprs;
        while exprs.len() > 0
            invariant
                self.inv(),
                self.proto() == old(self).proto(),
                self@.nodes.len() == old(self)@.nodes.len(),
                start.nodes.len() == old(self)@.nodes.len(),
                exprs@.len() <= ips@.len(),
                forall|i: int|
                    0 <= i < ips@.len() ==> (#[trigger] ips@[i]).0 < old(self)@.nodes.len(),
                start.take_exprs(ips@.subrange(0, exprs@.len() as int)) == Ok::<
                    (Seq<ExprView>, LiftState),
                    ErrorView,
                >((exprs_view(exprs@), self@)),
            decreases exprs@.len(),
        {
            let k: usize = exprs.len();
            let ghost taken = exprs@;
            let ghost after = self@;
            let at = ips[k - 1];
            let expr = exprs.pop().unwrap();
            self.put_node(at.as_usize(), Node::Expr(expr));
            proof {
                let upto = ips@.subrange(0, k as int);
                assert(upto.drop_last() =~= ips@.subrange(0, k - 1));
                assert(upto.last() == at);
                assert(start.take_exprs(upto) == Ok::<(Seq<ExprView>, LiftState), ErrorView>(
                    (exprs_view(taken), after),
                ));
                assert(start.take_exprs(upto.drop_last()) is Ok);
                let before = start.take_exprs(upto.drop_last())->Ok_0;
                assert forall|i: int| 0 <= i < upto.drop_last().len() implies (
                #[trigger] upto.drop_last()[i]).0 < start.nodes.len() by {
                    assert(upto.drop_last()[i] == ips@[i]);
                }
                lemma_take_exprs_shape(start, upto.drop_last());
                assert(before.1.take_expr(at) is Ok);
                let last = before.1.take_expr(at)->Ok_0.0;
                assert(after == before.1.clear(at.0 as int));
                assert(after.nodes.len() == before.1.nodes.len());
                assert(before.1.nodes[at.0 as int] == Some(NodeView::Expr(last)));
                assert(exprs_view(taken) == before.0.push(last));
                assert(before.0.len() == k - 1);
                assert(exprs_view(taken)[k - 1] == expr@);
                assert(expr@ == last);
                assert(exprs@ =~= taken.drop_last());
                assert forall|j: int| 0 <= j < k - 1 implies exprs_view(exprs@)[j] == before.0[j] by {
                    assert(exprs_view(taken)[j] == before.0.push(last)[j]);
                    assert(exprs@[j] == taken[j]);
                }
                assert(exprs_view(exprs@) =~= before.0);
                assert(self@.nodes == after.nodes.update(
                    at.0 as int,
                    Some(NodeView::Expr(last)),
                ));
                assert(self@.nodes =~= before.1.nodes);
                assert(self@ == before.1);
            }
        }
        assert(ips@.subrange(0, 0) =~= Seq::<Ip>::empty());
    }

    /// Takes the expressions stored under `ips` out of their slots, in order.
    /// Where one of them cannot be taken, the others are put back: the
    /// state stays as it is.
    #[verifier::loop_isolation(false)]
    fn take_exprs(&mut self, ips: &Vec<Ip>) -> (r: Result<Vec<Expr>, Error>)
        requires
            old(self).inv(),
            forall|i: int| 0 <= i < ips@.len() ==> (#[trigger] ips@[i]).0 < old(self)@.nodes.len(),
        ensures
            final(self).proto() == old(self).proto(),
            match old(self)@.take_exprs(ips@) {
                Ok((exprs, state)) => {
                    &&& r is Ok
                    &&& exprs_view(r->Ok_0@) == exprs
                    &&& exprs.len() == ips@.len()
                    &&& final(self)@ == state
                    &&& final(self).inv()
                    &&& state.nodes.len() == old(self)@.nodes.len()
                    &&& state.stack == old(self)@.stack
                },
                Err(e) => r is Err && r->Err_0@ == e && final(self)@ == old(self)@ && final(self).inv(),
            },
    {
        let mut exprs: Vec<Expr> = Vec::new();
        let mut i: usize = 0;
        assert(ips@.subrange(0, 0) =~= Seq::empty());
        assert(exprs_view(exprs@) =~= Seq::empty());
        while i < ips.len()
            invariant
                i <= ips.len(),
                self.inv(),
                self.proto() == old(self).proto(),
                self@.nodes.len() == old(self)@.nodes.len(),
                self@.stack == old(self)@.stack,
                exprs@.len() == i,
                old(self)@.take_exprs(ips@.subrange(0, i as int)) == Ok::<
                    (Seq<ExprView>, LiftState),
                    ErrorView,
                >((exprs_view(exprs@), self@)),
            decreases ips.len() - i,
        {
            proof {
                let upto = ips@.subrange(0, i + 1);
                assert(upto.drop_last() =~= ips@.subrange(0, i as int));
                assert(upto.last() == ips@[i as int]);
            }
            match self.take_expr(ips[i]) {
                Err(e) => {
                    proof {
                        lemma_take_exprs_error_stays(old(self)@, ips@, i + 1);
                    }
                    self.put_back(ips, exprs, Ghost(old(self)@));
                    return Err(e);
                },
                Ok(expr) => {
                    let ghost before = exprs@;
                    exprs.push(expr);
                    assert(exprs_view(exprs@) =~= exprs_view(before).push(expr@));
                },
            }
            i = i + 1;
        }
        assert(ips@.subrange(0, ips@.len() as int) =~= ips@);
        Ok(exprs)
    }

    /// Puts the slots that were cut off the stack back on top of it.
    fn unsplit_stack(&mut self, rest: Vec<Ip>)
        requires
            old(self).inv(),
            forall|i: int| 0 <= i < rest@.len() ==> (#[trigger] rest@[i]).0 < old(self)@.nodes.len(),
        ensures
            final(self)@ == (LiftState { stack: old(self)@.stack + rest@, ..old(self)@ }),
            final(self).inv(),
            final(self).proto() == old(self).proto(),
    {
        let ghost top = rest@;
        let mut rest = rest;
        self.stack.append(&mut rest);
        assert forall|i: int| 0 <= i < self@.stack.len() implies (#[trigger] self@.stack[i]).0
            < self@.nodes.len() by {
            if i < old(self)@.stack.len() {
                assert(self@.stack[i] == old(self)@.stack[i]);
            } else {
                assert(self@.stack[i] == top[i - old(self)@.stack.len()]);
            }
        }
        assert forall|i: int| 0 <= i < self@.blocks.len() implies (#[trigger] self@.blocks[i]).start.0
            < self@.nodes.len() && self@.blocks[i].end.0 <= self@.nodes.len() by {
            assert(self@.blocks[i] == old(self)@.blocks[i]);
        }
    }

    /// Cuts the stack down to its lowest `base` slots and puts `rest` on top
    /// of them.
    fn restore_stack(&mut self, base: usize, rest: Vec<Ip>)
        requires
            old(self).inv(),
            base <= old(self)@.stack.len(),
            forall|i: int| 0 <= i < rest@.len() ==> (#[trigger] rest@[i]).0 < old(self)@.nodes.len(),
        ensures
            final(self)@ == (LiftState {
                stack: old(self)@.stack.subrange(0, base as int) + rest@,
                ..old(self)@
            }),
            final(self).inv(),
            final(self).proto() == old(self).proto(),
    {
        let _ = self.split_stack(base);
        self.unsplit_stack(rest);
    }

    /// The name that the debug table gives to the stack slot `slot` at the
    /// instruction `ip`.
    fn debug_local_name(&self, slot: usize, ip: u32) -> (r: Option<String>)
        ensures
            match debug_name(self.proto().locals, 0, slot as nat, ip as nat) {
                Some(name) => r is Some && r->0@ == name,
                None => r is None,
            },
    {
        let ghost locals = self.proto@.locals;
        let mut left: usize = slot;
        let mut i: usize = 0;
        while i < self.proto.locals.len()
            invariant
                i <= self.proto.locals.len(),
                locals == locals_view(self.proto.locals@),
                debug_name(locals, 0, slot as nat, ip as nat) == debug_name(
                    locals,
                    i as nat,
                    left as nat,
                    ip as nat,
                ),
            decreases self.proto.locals.len() - i,
        {
            let local = &self.proto.locals[i];
            assert(locals[i as int] == local@);
            if local.startpc <= ip && ip < local.endpc {
                if left == 0 {
                    return Some(local.varname.clone());
                }
                left = left - 1;
            }
            i = i + 1;
        }
        None
    }

    /// Promotes the syntax node of the given instruction, which fills the
    /// stack slot `slot`, into a local variable declaration.
    ///
    /// Returns `true` if the node was promoted. A node that is a
    /// declaration already stays as it is. Where the promotion fails, the
    /// state stays as it is: no name is drawn and no local is counted.
    pub fn promote_local_var(&mut self, slot: usize, at: Ip, ip: u32) -> (r: Result<bool, Error>)
        requires
            old(self).inv(),
            at.0 < old(self)@.nodes.len(),
        ensures
            final(self).proto() == old(self).proto(),
            match old(self)@.promote(old(self).proto(), slot as nat, at, ip as nat) {
                Ok(state) => {
                    &&& r is Ok
                    &&& final(self)@ == state
                    &&& final(self).inv()
                    &&& r->Ok_0 == (old(self)@.nodes[at.0 as int] matches Some(NodeView::Expr(_)))
                    &&& r->Ok_0 ==> promoted_from(old(self)@, state, at)
                    &&& !r->Ok_0 ==> state == old(self)@
                },
                Err(e) => r is Err && r->Err_0@ == e && final(self)@ == old(self)@,
            },
            final(self).inv(),
    {
        // If the stack slot is not a local variable declaration,
        // then promote it.
        //
        // Local variable declarations at the start of the function
        // may have their OP_SETLOCAL instructions removed as an
        // optimisation.
        match &self.nodes[at.as_usize()] {
            None => {
                return Ok(false);
            },
            Some(Node::Stmt(Stmt::LocalVar(_))) => {
                return Ok(false);
            },
            Some(Node::Stmt(_)) => {
                return Err(
                    Error::new_parser(
                        "a statement cannot be turned into a local variable declaration",
                    ),
                );
            },
            Some(Node::Partial(_)) => {
                return Err(
                    Error::new_parser(
                        "a partially built statement cannot be turned into a local variable declaration",
                    ),
                );
            },
            Some(Node::Expr(_)) => {},
        }
        if self.local_end == u32::MAX {
            return Err(Error::new_parser("too many local variables"));
        }
        let name: String = match self.fresh_name(slot, ip) {
            Err(e) => {
                return Err(e);
            },
            Ok(name) => name,
        };
        match self.take_node(at.as_usize()) {
            Some(Node::Expr(rhs)) => {
                let name = Ident::new(name.as_str());
                self.put_node(at.as_usize(), Node::Stmt(Stmt::LocalVar(LocalVar { name, rhs })));
                self.local_end = self.local_end + 1;
                proof {
                    let expected = old(self)@.promote(
                        old(self).proto(),
                        slot as nat,
                        at,
                        ip as nat,
                    )->Ok_0;
                    assert(self@.nodes =~= expected.nodes);
                }
                Ok(true)
            },
            _ => Ok(false),
        }
    }

    /// Reads the stack slot `slot` as a local at `ip`: its node is
    /// promoted, unless the slot belongs to a `for` that is still open,
    /// whose head declares the variables of its slots itself.
    ///
    /// Returns `true` if a node was promoted. Where the promotion fails,
    /// the state stays as it is.
    pub fn promote_slot(&mut self, slot: usize, ip: u32) -> (r: Result<bool, Error>)
        requires
            old(self).inv(),
            slot < old(self)@.stack.len(),
        ensures
            final(self).proto() == old(self).proto(),
            match old(self)@.promote_slot(old(self).proto(), slot as nat, ip as nat) {
                Ok(state) => {
                    &&& r is Ok
                    &&& final(self)@ == state
                    &&& final(self).inv()
                    &&& state.stack == old(self)@.stack
                    &&& state.nodes.len() == old(self)@.nodes.len()
                    &&& r->Ok_0 ==> promoted_from(old(self)@, state, old(self)@.stack[slot as int])
                    &&& !r->Ok_0 ==> state == old(self)@
                },
                Err(e) => r is Err && r->Err_0@ == e && final(self)@ == old(self)@,
            },
            final(self).inv(),
    {
        let at = self.stack[slot];
        assert(at == self@.stack[slot as int]);
        if let Some(Node::Partial(Partial::ForHead(_))) = &self.nodes[at.as_usize()] {
            return Ok(false);
        }
        self.promote_local_var(slot, at, ip)
    }

    /// The name for the variable in the stack slot `slot` that comes to
    /// life at `ip`: that of the debug table, or else the next made-up name.
    fn fresh_name(&mut self, slot: usize, ip: u32) -> (r: Result<String, Error>)
        requires
            old(self).inv(),
        ensures
            final(self).proto() == old(self).proto(),
            match old(self)@.fresh_name(old(self).proto(), slot as nat, ip as nat) {
                Ok((name, names)) => {
                    &&& r is Ok
                    &&& r->Ok_0@ == name
                    &&& final(self)@ == (LiftState { names, ..old(self)@ })
                    &&& final(self).inv()
                },
                Err(e) => r is Err && r->Err_0@ == e && final(self)@ == old(self)@,
            },
            final(self).inv(),
    {
        match self.debug_local_name(slot, ip) {
            Some(name) => Ok(name),
            None => {
                if self.local_namer.count == u64::MAX {
                    return Err(Error::new_parser("too many local variables"));
                }
                // Generate a new name for the local variable.
                Ok(self.local_namer.next())
            },
        }
    }

    /// How many slots directly below `slot` were filled by the same
    /// instruction as `slot`.
    fn run_index(&self, slot: usize) -> (k: usize)
        requires
            slot < self@.stack.len(),
        ensures
            k == run_below(self@.stack, slot as int),
    {
        let mut j: usize = slot;
        let mut k: usize = 0;
        while j > 0 && self.stack[j - 1].0 == self.stack[j].0
            invariant
                j <= slot < self.stack@.len(),
                k == slot - j,
                run_below(self.stack@, slot as int) == k + run_below(self.stack@, j as int),
            decreases j,
        {
            j = j - 1;
            k = k + 1;
        }
        k
    }

    /// The name of the local variable in the stack slot `local_id`.
    pub fn get_local_var_name(&self, local_id: u32) -> (r: Result<String, Error>)
        requires
            self.inv(),
        ensures
            match self@.name_of_slot(local_id as nat) {
                Ok(name) => r is Ok && r->Ok_0@ == name,
                Err(e) => r is Err && r->Err_0@ == e,
            },
    {
        if local_id as usize >= self.stack.len() {
            return Err(err_stack_underflow());
        }
        let node_ip = self.stack[local_id as usize];
        assert(node_ip == self@.stack[local_id as int]);
        match &self.nodes[node_ip.as_usize()] {
            None => Err(err_node_none()),
            Some(Node::Stmt(stmt)) => match stmt {
                Stmt::LocalVar(local_var) => Ok(String::from_str(local_var.name.as_str())),
                _ => Err(Error::new_parser("unexpected statement in local variable node")),
            },
            Some(Node::Expr(_)) => Err(
                Error::new_parser("unexpected expression in local variable node"),
            ),
            Some(Node::Partial(Partial::ForHead(head))) => {
                let k: usize = self.run_index(local_id as usize);
                match &**head {
                    ForHead::Numeric { var, .. } => if k == 0 {
                        Ok(String::from_str(var.as_str()))
                    } else {
                        Err(Error::new_parser("stack slot of a loop holds no variable"))
                    },
                    ForHead::Generic { key, value, .. } => if k == 2 {
                        Ok(String::from_str(key.as_str()))
                    } else if k == 3 {
                        Ok(String::from_str(value.as_str()))
                    } else {
                        Err(Error::new_parser("stack slot of a loop holds no variable"))
                    },
                }
            },
            Some(Node::Partial(_)) => Err(
                Error::new_parser("unexpected partial statement in local variable node"),
            ),
        }
    }

    /// Takes the nodes from `lo` up to `hi` that are present out of their
    /// slots.
    #[verifier::loop_isolation(false)]
    #[verifier::rlimit(50)]
    fn collect_range(&mut self, lo: usize, hi: usize) -> (body: Block)
        requires
            old(self).inv(),
            lo <= hi <= old(self)@.nodes.len(),
        ensures
            final(self).proto() == old(self).proto(),
            final(self).inv(),
            body@ == present(old(self)@.nodes.subrange(lo as int, hi as int)),
            final(self)@ == (LiftState {
                nodes: clear_range(old(self)@.nodes, lo as int, hi as int),
                ..old(self)@
            }),
    {
        let mut nodes: Vec<Node> = Vec::new();
        let mut j: usize = lo;
        assert(old(self)@.nodes.subrange(lo as int, lo as int) =~= Seq::empty());
        assert(nodes_view(nodes@) =~= Seq::empty());
        assert(self@.nodes =~= clear_range(old(self)@.nodes, lo as int, lo as int));
        while j < hi
            invariant
                lo <= j <= hi,
                self.inv(),
                self.proto() == old(self).proto(),
                nodes_view(nodes@) == present(old(self)@.nodes.subrange(lo as int, j as int)),
                self@ == (LiftState {
                    nodes: clear_range(old(self)@.nodes, lo as int, j as int),
                    ..old(self)@
                }),
            decreases hi - j,
        {
            proof {
                let upto = old(self)@.nodes.subrange(lo as int, j + 1);
                assert(upto.drop_last() =~= old(self)@.nodes.subrange(lo as int, j as int));
                assert(upto.last() == old(self)@.nodes[j as int]);
            }
            match self.take_node(j) {
                Some(node) => {
                    let ghost before = nodes@;
                    nodes.push(node);
                    assert(nodes_view(nodes@) =~= nodes_view(before).push(node@));
                },
                None => {},
            }
            j = j + 1;
            assert(self@.nodes =~= clear_range(old(self)@.nodes, lo as int, j as int));
        }
        Block { nodes }
    }

    /// Takes the two operands of a binary operation off the stack: the
    /// left one and the right one. Where one of them cannot be taken, the
    /// state stays as it is.
    fn pop_operands(&mut self) -> (r: Result<(Expr, Expr), Error>)
        requires
            old(self).inv(),
        ensures
            final(self).proto() == old(self).proto(),
            match old(self)@.pop_operands() {
                Ok((lhs, rhs, state)) => {
                    &&& r is Ok
                    &&& r->Ok_0.0@ == lhs
                    &&& r->Ok_0.1@ == rhs
                    &&& final(self)@ == state
                    &&& final(self).inv()
                },
                Err(e) => r is Err && r->Err_0@ == e && final(self)@ == old(self)@,
            },
            final(self).inv(),
    {
        let depth: usize = self.stack.len();
        if depth < 2 {
            return Err(err_stack_underflow());
        }
        let lhs_ip = self.stack[depth - 2];
        let rhs_ip = self.stack[depth - 1];
        // Look before taking, so that nothing is taken in vain.
        match &self.nodes[rhs_ip.as_usize()] {
            None => {
                return Err(err_node_none());
            },
            Some(Node::Expr(_)) => {},
            Some(_) => {
                return Err(err_expr_expected());
            },
        }
        if lhs_ip.0 == rhs_ip.0 {
            return Err(err_node_none());
        }
        match &self.nodes[lhs_ip.as_usize()] {
            None => {
                return Err(err_node_none());
            },
            Some(Node::Expr(_)) => {},
            Some(_) => {
                return Err(err_expr_expected());
            },
        }
        let _ = self.split_stack(depth - 2);
        let rhs = match self.take_expr(rhs_ip) {
            Err(e) => {
                return Err(e);
            },
            Ok(v) => v,
        };
        let lhs = match self.take_expr(lhs_ip) {
            Err(e) => {
                return Err(e);
            },
            Ok(v) => v,
        };
        Ok((lhs, rhs))
    }

    /// Takes the value on top of the stack. Where it cannot be taken, the
    /// state stays as it is.
    fn pop_expr(&mut self) -> (r: Result<Expr, Error>)
        requires
            old(self).inv(),
        ensures
            final(self).proto() == old(self).proto(),
            final(self).inv(),
            r is Err ==> final(self)@ == old(self)@,
            old(self)@.stack.len() == 0 ==> r is Err && r->Err_0@ == stack_underflow(),
            old(self)@.stack.len() > 0 ==> match old(self)@.truncate(
                old(self)@.stack.len() - 1,
            ).take_expr(old(self)@.stack.last()) {
                Ok((e, state)) => r is Ok && r->Ok_0@ == e && final(self)@ == state && final(self).inv(),
                Err(e) => r is Err && r->Err_0@ == e,
            },
    {
        let depth: usize = self.stack.len();
        if depth == 0 {
            return Err(err_stack_underflow());
        }
        let top = self.stack[depth - 1];
        match &self.nodes[top.as_usize()] {
            None => {
                return Err(err_node_none());
            },
            Some(Node::Expr(_)) => {},
            Some(_) => {
                return Err(err_expr_expected());
            },
        }
        let _ = self.split_stack(depth - 1);
        self.take_expr(top)
    }

    fn parse_push_literal(&mut self, ip: Ip, lit: Lit) -> (r: Result<(), Error>)
        requires
            old(self).inv(),
            ip.0 < old(self)@.nodes.len(),
        ensures
            Self::steps(*old(self), *final(self), r, Ok(old(self)@.push_literal(ip, lit@))),
    {
        self.put_node(ip.as_usize(), Node::Expr(Expr::Literal(lit)));
        self.push_slot(ip);
        Ok(())
    }

    /// Parse a [Op::PushInt] instruction.
    pub fn parse_push_int(&mut self, ip: Ip, value: i32) -> (r: Result<(), Error>)
        requires
            old(self).inv(),
            ip.0 < old(self)@.nodes.len(),
        ensures
            Self::steps(
                *old(self),
                *final(self),
                r,
                Ok(old(self)@.push_literal(ip, crate::lua40::ast::LitView::Int(value))),
            ),
    {
        // Pushes a constant integer into the stack top.
        self.parse_push_literal(ip, Lit::Int(value))
    }

    /// Parse a [Op::PushNil] instruction.
    pub fn parse_push_nil(&mut self, ip: Ip, n: u32) -> (r: Result<(), Error>)
        requires
            old(self).inv(),
            ip.0 < old(self)@.nodes.len(),
        ensures
            Self::steps(*old(self), *final(self), r, Ok(old(self)@.push_nil(ip, n as nat))),
    {
        self.put_node(ip.as_usize(), Node::Expr(Expr::Literal(Lit::Nil)));
        self.push_slots(ip, n);
        Ok(())
    }

    /// Parse a [Op::PushNum] or, with `negate`, a [Op::PushNegNum] instruction.
    pub fn parse_push_num(&mut self, ip: Ip, id: u32, negate: bool) -> (r: Result<(), Error>)
        requires
            old(self).inv(),
            ip.0 < old(self)@.nodes.len(),
        ensures
            Self::steps(
                *old(self),
                *final(self),
                r,
                old(self)@.push_num(old(self).proto(), ip, id as nat, negate),
            ),
    {
        if id as usize >= self.proto.constants.numbers.len() {
            return Err(Error::new_parser("constant index out of range"));
        }
        let number: Number = self.proto.constants.numbers[id as usize];
        let number: Number = if negate {
            number.negated()
        } else {
            number
        };
        self.parse_push_literal(ip, Lit::Num(number))
    }

    /// Parse a [Op::PushString] instruction.
    pub fn parse_push_string(&mut self, ip: Ip, id: u32) -> (r: Result<(), Error>)
        requires
            old(self).inv(),
            ip.0 < old(self)@.nodes.len(),
        ensures
            Self::steps(
                *old(self),
                *final(self),
                r,
                old(self)@.push_string(old(self).proto(), ip, id as nat),
            ),
    {
        if id as usize >= self.proto.constants.strings.len() {
            return Err(Error::new_parser("constant index out of range"));
        }
        let text: String = self.proto.constants.strings[id as usize].clone();
        self.parse_push_literal(ip, Lit::Str(text))
    }

    /// Parse a [Op::GetLocal] instruction.
    pub fn parse_get_local(&mut self, ip: Ip, stack_offset: u32) -> (r: Result<(), Error>)
        requires
            old(self).inv(),
            ip.0 < old(self)@.nodes.len(),
        ensures
            Self::steps(
                *old(self),
                *final(self),
                r,
                old(self)@.get_local(old(self).proto(), ip, stack_offset as nat),
            ),
    {
        if stack_offset as usize >= self.stack.len() {
            return Err(err_stack_underflow());
        }
        // Because the stack slot is now being treated as a local variable, we
        // can check how it was written and possibly promote that syntax from
        // an expression into a local variable declaration statement.
        match self.promote_slot(stack_offset as usize, ip.0) {
            Err(e) => {
                return Err(e);
            },
            Ok(_) => {},
        }
        let local_name = match self.get_local_var_name(stack_offset) {
            Err(e) => {
                return Err(e);
            },
            Ok(v) => v,
        };
        self.put_node(ip.as_usize(), Node::Expr(Expr::Access(Ident::new(local_name.as_str()))));
        // Copies the value from the local variable's slot onto the stack top.
        self.push_slot(ip);
        Ok(())
    }

    /// Parse a [Op::GetGlobal] instruction.
    pub fn parse_get_global(&mut self, ip: Ip, string_id: u32) -> (r: Result<(), Error>)
        requires
            old(self).inv(),
            ip.0 < old(self)@.nodes.len(),
        ensures
            Self::steps(
                *old(self),
                *final(self),
                r,
                old(self)@.get_global(old(self).proto(), ip, string_id as nat),
            ),
    {
        if string_id as usize >= self.proto.constants.strings.len() {
            return Err(Error::new_parser("constant index out of range"));
        }
        let global_name = Ident::new(self.get_global_var_name(string_id));
        self.put_node(ip.as_usize(), Node::Expr(Expr::Access(global_name)));
        self.push_slot(ip);
        Ok(())
    }

    /// Parse a [Op::SetLocal] instruction.
    #[verifier::rlimit(50)]
    pub fn parse_set_local(&mut self, ip: Ip, stack_offset: u32) -> (r: Result<(), Error>)
        requires
            old(self).inv(),
            ip.0 < old(self)@.nodes.len(),
        ensures
            Self::steps(
                *old(self),
                *final(self),
                r,
                old(self)@.set_local(old(self).proto(), ip, stack_offset as nat),
            ),
    {
        let depth: usize = self.stack.len();
        if stack_offset as usize >= depth {
            return Err(err_stack_underflow());
        }
        let at = self.stack[stack_offset as usize];
        let top = self.stack[depth - 1];
        let names_before: u64 = self.local_namer.count;
        // An existing node that wrote the variable may be promoted to a variable declaration.
        let promoted: bool = match self.promote_slot(stack_offset as usize, ip.0) {
            Err(e) => {
                return Err(e);
            },
            Ok(v) => v,
        };
        // Value is 'moved' into the variable.
        let rhs = match self.pop_expr() {
            Err(e) => {
                self.demote(promoted, at, names_before, Ghost(old(self)@));
                return Err(e);
            },
            Ok(v) => v,
        };
        let name = match self.get_local_var_name(stack_offset) {
            Err(e) => {
                // Nothing is consumed by an assignment that fails.
                let ghost popped = self@;
                self.put_node(top.as_usize(), Node::Expr(rhs));
                self.push_slot(top);
                proof {
                    let promoted_state = old(self)@.promote_slot(
                        old(self).proto(),
                        stack_offset as nat,
                        ip.0 as nat,
                    )->Ok_0;
                    assert(self@.nodes =~= promoted_state.nodes);
                    assert(self@.stack =~= promoted_state.stack);
                }
                self.demote(promoted, at, names_before, Ghost(old(self)@));
                return Err(e);
            },
            Ok(v) => v,
        };
        let name = Ident::new(name.as_str());
        self.put_node(ip.as_usize(), Node::Stmt(Stmt::Assign(Box::new(Assign { name, rhs }))));
        Ok(())
    }

    /// Takes a promotion back: where `promoted` is set, the declaration
    /// under `at` becomes the bare expression again that it was promoted
    /// from, and the names and the locals are counted as in `start`, the
    /// state before the promotion.
    fn demote(&mut self, promoted: bool, at: Ip, names_before: u64, Ghost(start): Ghost<LiftState>)
        requires
            old(self).inv(),
            at.0 < old(self)@.nodes.len(),
            names_before == start.names,
            !promoted ==> old(self)@ == start,
            promoted ==> promoted_from(start, old(self)@, at),
        ensures
            final(self)@ == start,
            final(self).inv(),
            final(self).proto() == old(self).proto(),
    {
        if promoted {
            match self.take_node(at.as_usize()) {
                Some(Node::Stmt(Stmt::LocalVar(local_var))) => {
                    let LocalVar { name: _, rhs } = local_var;
                    self.put_node(at.as_usize(), Node::Expr(rhs));
                    self.local_end = self.local_end - 1;
                    self.restore_names(names_before);
                    assert(self@.nodes =~= start.nodes);
                },
                _ => {},
            }
        }
    }

    /// Counts the made-up names as `names` again.
    fn restore_names(&mut self, names: u64)
        requires
            old(self).inv(),
        ensures
            final(self)@ == (LiftState { names: names as nat, ..old(self)@ }),
            final(self).inv(),
            final(self).proto() == old(self).proto(),
    {
        self.local_namer.count = names;
    }

    /// Parse a [Op::SetGlobal] instruction.
    pub fn parse_set_global(&mut self, ip: Ip, string_id: u32) -> (r: Result<(), Error>)
        requires
            old(self).inv(),
            ip.0 < old(self)@.nodes.len(),
        ensures
            Self::steps(
                *old(self),
                *final(self),
                r,
                old(self)@.set_global(old(self).proto(), ip, string_id as nat),
            ),
    {
        if string_id as usize >= self.proto.constants.strings.len() {
            return Err(Error::new_parser("constant index out of range"));
        }
        let rhs = match self.pop_expr() {
            Err(e) => {
                return Err(e);
            },
            Ok(v) => v,
        };
        let name = Ident::new(self.get_global_var_name(string_id));
        self.put_node(ip.as_usize(), Node::Stmt(Stmt::Assign(Box::new(Assign { name, rhs }))));
        Ok(())
    }

    /// Parse one of the instructions that stand for a binary operation.
    pub fn parse_binary_op(&mut self, ip: Ip, op: BinOp) -> (r: Result<(), Error>)
        requires
            old(self).inv(),
            ip.0 < old(self)@.nodes.len(),
        ensures
            Self::steps(*old(self), *final(self), r, old(self)@.binary_op(ip, op)),
    {
        let (lhs, rhs) = match self.pop_operands() {
            Err(e) => {
                return Err(e);
            },
            Ok(v) => v,
        };
        self.put_node(ip.as_usize(), Node::Expr(Expr::Binary(Box::new(BinExpr { op, lhs, rhs }))));
        self.push_slot(ip);
        Ok(())
    }

    /// Parse a [Op::AddI] instruction.
    pub fn parse_add_int(&mut self, ip: Ip, value: i32) -> (r: Result<(), Error>)
        requires
            old(self).inv(),
            ip.0 < old(self)@.nodes.len(),
        ensures
            Self::steps(*old(self), *final(self), r, old(self)@.add_int(ip, value)),
    {
        let lhs = match self.pop_expr() {
            Err(e) => {
                return Err(e);
            },
            Ok(v) => v,
        };
        let rhs = Expr::Literal(Lit::Int(value));
        assert(rhs@ == ExprView::Literal(crate::lua40::ast::LitView::Int(value)));
        self.put_node(
            ip.as_usize(),
            Node::Expr(Expr::Binary(Box::new(BinExpr { op: BinOp::Add, lhs, rhs }))),
        );
        self.push_slot(ip);
        Ok(())
    }

    /// Parse one of the instructions that stand for a unary operation.
    pub fn parse_unary_op(&mut self, ip: Ip, op: UnOp) -> (r: Result<(), Error>)
        requires
            old(self).inv(),
            ip.0 < old(self)@.nodes.len(),
        ensures
            Self::steps(*old(self), *final(self), r, old(self)@.unary_op(ip, op)),
    {
        let rhs = match self.pop_expr() {
            Err(e) => {
                return Err(e);
            },
            Ok(v) => v,
        };
        self.put_node(ip.as_usize(), Node::Expr(Expr::Unary(Box::new(UnExpr { op, rhs }))));
        self.push_slot(ip);
        Ok(())
    }

    /// Parse a [Op::Concat] instruction.
    pub fn parse_concat(&mut self, ip: Ip, n: u32) -> (r: Result<(), Error>)
        requires
            old(self).inv(),
            ip.0 < old(self)@.nodes.len(),
        ensures
            Self::steps(*old(self), *final(self), r, old(self)@.concat(ip, n as nat)),
    {
        if n == 0 || n as usize > self.stack.len() {
            return Err(err_stack_underflow());
        }
        let base: usize = self.stack.len() - n as usize;
        let rest = self.split_stack(base);
        let values = match self.take_exprs(&rest) {
            Err(e) => {
                self.restore_stack(base, rest);
                assert(self@.stack =~= old(self)@.stack);
                return Err(e);
            },
            Ok(v) => v,
        };
        let joined = concat_exprs(values);
        self.put_node(ip.as_usize(), Node::Expr(joined));
        self.push_slot(ip);
        Ok(())
    }

    /// Parse a [Op::Call] instruction.
    pub fn parse_call(&mut self, ip: Ip, stack_offset: u32, results: u32) -> (r: Result<(), Error>)
        requires
            old(self).inv(),
            ip.0 < old(self)@.nodes.len(),
        ensures
            Self::steps(
                *old(self),
                *final(self),
                r,
                old(self)@.call(ip, stack_offset as nat, results as nat),
            ),
    {
        if stack_offset as usize >= self.stack.len() {
            return Err(err_stack_underflow());
        }
        let base: usize = stack_offset as usize;
        // Truncate stack and leave results.
        let mut arg_ips = self.split_stack(base);
        let ghost rest = arg_ips@;
        let name_ip = arg_ips.remove(0);
        assert(arg_ips@ =~= old(self)@.stack.subrange(
            stack_offset as int + 1,
            old(self)@.stack.len() as int,
        ));
        assert forall|i: int| 0 <= i < arg_ips@.len() implies (#[trigger] arg_ips@[i]).0
            < self@.nodes.len() by {
            assert(arg_ips@[i] == rest[i + 1]);
        }
        let multret: bool = results == 255;
        let pushed: u32 = if multret {
            1
        } else {
            results
        };
        self.push_slots(ip, pushed);
        let ghost cut = self@;
        let name = match self.take_expr(name_ip) {
            Err(e) => {
                arg_ips.insert(0, name_ip);
                assert(arg_ips@ =~= rest);
                self.restore_stack(base, arg_ips);
                assert(self@.stack =~= old(self)@.stack);
                return Err(e);
            },
            Ok(v) => v,
        };
        let args = match self.take_exprs(&arg_ips) {
            Err(e) => {
                // Nothing is consumed by a call that fails.
                self.put_node(name_ip.as_usize(), Node::Expr(name));
                assert(self@.nodes =~= cut.nodes);
                arg_ips.insert(0, name_ip);
                assert(arg_ips@ =~= rest);
                self.restore_stack(base, arg_ips);
                assert(self@.stack =~= old(self)@.stack);
                return Err(e);
            },
            Ok(v) => v,
        };
        let node: Node = if results == 0 {
            // When the call returns 0 results, it implies the function
            // was called as a statement.
            Node::Stmt(Stmt::Call(Box::new(Call { name, args, multret })))
        } else {
            // When the call returns results, it was part of an expression.
            Node::Expr(Expr::Call(Box::new(Call { name, args, multret })))
        };
        self.put_node(ip.as_usize(), node);
        Ok(())
    }

    /// Parse a [Op::Return] instruction.
    pub fn parse_return(&mut self, ip: Ip, results: u32) -> (r: Result<(), Error>)
        requires
            old(self).inv(),
            ip.0 < old(self)@.nodes.len(),
        ensures
            Self::steps(*old(self), *final(self), r, old(self)@.ret(ip, results as nat)),
    {
        if results as usize > self.stack.len() {
            return Err(err_stack_underflow());
        }
        let base: usize = self.stack.len() - results as usize;
        let rest = self.split_stack(base);
        let values = match self.take_exprs(&rest) {
            Err(e) => {
                self.restore_stack(base, rest);
                assert(self@.stack =~= old(self)@.stack);
                return Err(e);
            },
            Ok(v) => v,
        };
        self.put_node(ip.as_usize(), Node::Stmt(Stmt::Return(values)));
        Ok(())
    }

    /// Removes the top `n` slots from the stack.
    fn drop_slots(&mut self, n: usize)
        requires
            old(self).inv(),
            n <= old(self)@.stack.len(),
        ensures
            final(self)@ == old(self)@.drop_slots(n as nat),
            final(self).inv(),
            final(self).proto() == old(self).proto(),
    {
        let left: usize = self.stack.len() - n;
        let _ = self.split_stack(left);
        // Slots that are gone no longer count as locals.
        if self.local_end as usize > left {
            self.local_end = left as u32;
        }
    }

    /// Parse a [Op::Pop] instruction. To pop more slots than the stack
    /// holds is an underflow, which leaves the state as it is.
    pub fn parse_pop(&mut self, n: u32) -> (r: Result<(), Error>)
        requires
            old(self).inv(),
        ensures
            Self::steps(*old(self), *final(self), r, old(self)@.pop(n as nat)),
    {
        if n as usize > self.stack.len() {
            return Err(err_stack_underflow());
        }
        // Removes 'n' slots from the stack.
        self.drop_slots(n as usize);
        // Pop is implicit to remove locals at the end of a block,
        // so doesn't have any syntax to generate.
        Ok(())
    }

    /// Parse one of the conditional jumps, which open an `if`. A jump that
    /// is refused leaves the state as it is.
    pub fn parse_cond_jump(&mut self, ip: Ip, op: CondOp, dest_ip: i32) -> (r: Result<(), Error>)
        requires
            old(self).inv(),
            ip.0 < old(self)@.nodes.len(),
        ensures
            Self::steps(*old(self), *final(self), r, old(self)@.cond_jump(ip, op, dest_ip as int)),
    {
        // Destination address is relative to the instruction following the current one.
        let end: i64 = ip.0 as i64 + 1 + dest_ip as i64;
        if self.stack.len() < 2 {
            return Err(err_stack_underflow());
        }
        if end < 0 || end > self.nodes.len() as i64 {
            return Err(Error::new_parser("jump destination out of bounds"));
        }
        let (lhs, rhs) = match self.pop_operands() {
            Err(e) => {
                return Err(e);
            },
            Ok(v) => v,
        };
        self.put_node(
            ip.as_usize(),
            Node::Partial(
                Partial::IfHead(
                    Box::new(IfHead { expr: CondExpr::Binary { op, lhs, rhs }, then_: None }),
                ),
            ),
        );
        self.start_block(ip, Ip(end as u32));
        Ok(())
    }

    /// Parse a [Op::Jump] instruction.
    #[verifier::rlimit(50)]
    pub fn parse_jump(&mut self, ip: Ip, dest_ip: i32) -> (r: Result<(), Error>)
        requires
            old(self).inv(),
            ip.0 < old(self)@.nodes.len(),
        ensures
            Self::steps(*old(self), *final(self), r, old(self)@.jump(ip, dest_ip as int)),
    {
        let dest: i64 = ip.0 as i64 + 1 + dest_ip as i64;
        if dest < 0 || dest > self.nodes.len() as i64 {
            return Err(Error::new_parser("jump destination out of bounds"));
        }
        if self.blocks.len() == 0 {
            return Err(Error::new_parser("jump does not close a block"));
        }
        let span: BlockSpan = self.blocks[self.blocks.len() - 1];
        if span.end.0 as i64 != ip.0 as i64 + 1 {
            return Err(Error::new_parser("jump does not close a block"));
        }
        let start: usize = span.start.as_usize();
        let opens_if: bool = match &self.nodes[start] {
            Some(Node::Partial(Partial::IfHead(head))) => head.then_.is_none(),
            _ => false,
        };
        if !opens_if {
            return Err(Error::new_parser("jump does not close a block"));
        }
        if dest_ip < 0 {
            match self.take_node(start) {
                Some(Node::Partial(Partial::IfHead(head))) => {
                    let IfHead { expr, then_: _ } = *head;
                    self.put_node(
                        start,
                        Node::Partial(Partial::WhileHead(Box::new(WhileHead { expr }))),
                    );
                    assert(self@.nodes =~= old(self)@.jump(ip, dest_ip as int)->Ok_0.nodes);
                },
                _ => {},
            }
        } else {
            let arm: Block = if start + 1 <= ip.as_usize() {
                self.collect_range(start + 1, ip.as_usize())
            } else {
                assert(self@.nodes =~= clear_range(old(self)@.nodes, start + 1, ip.0 as int));
                Block { nodes: Vec::new() }
            };
            assert(arm@ =~= present_range(old(self)@.nodes, start + 1, ip.0 as int));
            match self.take_node(start) {
                Some(Node::Partial(Partial::IfHead(head))) => {
                    let IfHead { expr, then_: _ } = *head;
                    self.put_node(
                        start,
                        Node::Partial(Partial::IfHead(Box::new(IfHead { expr, then_: Some(arm) }))),
                    );
                },
                _ => {},
            }
            let _ = self.blocks.pop();
            self.blocks.push(BlockSpan { start: span.start, end: Ip(dest as u32) });
            proof {
                let expected = old(self)@.jump(ip, dest_ip as int)->Ok_0;
                assert(self@.nodes =~= expected.nodes);
                assert(self@.blocks =~= expected.blocks);
                assert forall|i: int| 0 <= i < self@.blocks.len() implies (
                #[trigger] self@.blocks[i]).start.0 < self@.nodes.len() && self@.blocks[i].end.0
                    <= self@.nodes.len() by {
                    if i < self@.blocks.len() - 1 {
                        assert(self@.blocks[i] == old(self)@.blocks[i]);
                    }
                }
                assert forall|i: int| 0 <= i < self@.stack.len() implies (
                #[trigger] self@.stack[i]).0 < self@.nodes.len() by {
                    assert(self@.stack[i] == old(self)@.stack[i]);
                }
            }
        }
        Ok(())
    }

    /// Parse a [Op::ForPrep] instruction.
    pub fn parse_for_prep(&mut self, ip: Ip, dest_ip: i32) -> (r: Result<(), Error>)
        requires
            old(self).inv(),
            ip.0 < old(self)@.nodes.len(),
        ensures
            Self::steps(
                *old(self),
                *final(self),
                r,
                old(self)@.for_prep(old(self).proto(), ip, dest_ip as int),
            ),
    {
        let end: i64 = ip.0 as i64 + 1 + dest_ip as i64;
        if self.stack.len() < 3 {
            return Err(err_stack_underflow());
        }
        if end < 0 || end > self.nodes.len() as i64 {
            return Err(Error::new_parser("jump destination out of bounds"));
        }
        let base: usize = self.stack.len() - 3;
        let rest = self.split_stack(base);
        self.push_slots(ip, 3);
        let ghost cut = self@;
        let mut values = match self.take_exprs(&rest) {
            Err(e) => {
                self.restore_stack(base, rest);
                assert(self@.stack =~= old(self)@.stack);
                return Err(e);
            },
            Ok(v) => v,
        };
        let var = match self.fresh_name(base, ip.0 + 1) {
            Err(e) => {
                // Nothing is consumed by a loop that cannot be opened.
                assert(rest@.subrange(0, values@.len() as int) =~= rest@);
                self.put_back(&rest, values, Ghost(cut));
                self.restore_stack(base, rest);
                assert(self@.stack =~= old(self)@.stack);
                return Err(e);
            },
            Ok(v) => v,
        };
        let ghost views = exprs_view(values@);
        let step = values.pop().unwrap();
        let limit = values.pop().unwrap();
        let start = values.pop().unwrap();
        assert(step@ == views[2] && limit@ == views[1] && start@ == views[0]);
        self.put_node(
            ip.as_usize(),
            Node::Partial(
                Partial::ForHead(
                    Box::new(ForHead::Numeric { var: Ident::new(var.as_str()), start, limit, step }),
                ),
            ),
        );
        self.start_block(ip, Ip(end as u32));
        Ok(())
    }

    /// Parse a [Op::LForPrep] instruction.
    #[verifier::rlimit(50)]
    pub fn parse_lfor_prep(&mut self, ip: Ip, dest_ip: i32) -> (r: Result<(), Error>)
        requires
            old(self).inv(),
            ip.0 < old(self)@.nodes.len(),
        ensures
            Self::steps(
                *old(self),
                *final(self),
                r,
                old(self)@.lfor_prep(old(self).proto(), ip, dest_ip as int),
            ),
    {
        let end: i64 = ip.0 as i64 + 1 + dest_ip as i64;
        if self.stack.len() < 1 {
            return Err(err_stack_underflow());
        }
        if end < 0 || end > self.nodes.len() as i64 {
            return Err(Error::new_parser("jump destination out of bounds"));
        }
        let base: usize = self.stack.len() - 1;
        let rest = self.split_stack(base);
        let table_ip = rest[0];
        self.push_slots(ip, 4);
        let ghost cut = self@;
        let depth: usize = self.stack.len();
        let table = match self.take_expr(table_ip) {
            Err(e) => {
                self.restore_stack(base, rest);
                assert(self@.stack =~= old(self)@.stack);
                return Err(e);
            },
            Ok(v) => v,
        };
        let names_before: u64 = self.local_namer.count;
        let key = match self.fresh_name(depth - 2, ip.0 + 1) {
            Err(e) => {
                // Nothing is consumed by a loop that cannot be opened.
                self.put_node(table_ip.as_usize(), Node::Expr(table));
                assert(self@.nodes =~= cut.nodes);
                self.restore_stack(base, rest);
                assert(self@.stack =~= old(self)@.stack);
                return Err(e);
            },
            Ok(v) => v,
        };
        let value = match self.fresh_name(depth - 1, ip.0 + 1) {
            Err(e) => {
                self.restore_names(names_before);
                self.put_node(table_ip.as_usize(), Node::Expr(table));
                assert(self@.nodes =~= cut.nodes);
                self.restore_stack(base, rest);
                assert(self@.stack =~= old(self)@.stack);
                return Err(e);
            },
            Ok(v) => v,
        };
        self.put_node(
            ip.as_usize(),
            Node::Partial(
                Partial::ForHead(
                    Box::new(
                        ForHead::Generic {
                            key: Ident::new(key.as_str()),
                            value: Ident::new(value.as_str()),
                            table,
                        },
                    ),
                ),
            ),
        );
        self.start_block(ip, Ip(end as u32));
        Ok(())
    }

    /// Parse a [Op::ForLoop] or a [Op::LForLoop] instruction, whose loop
    /// holds `slots` slots of the stack.
    pub fn parse_for_loop(&mut self, ip: Ip, dest_ip: i32, slots: u32) -> (r: Result<(), Error>)
        requires
            old(self).inv(),
            ip.0 < old(self)@.nodes.len(),
        ensures
            Self::steps(
                *old(self),
                *final(self),
                r,
                old(self)@.for_loop(ip, dest_ip as int, slots as nat),
            ),
    {
        let dest: i64 = ip.0 as i64 + 1 + dest_ip as i64;
        if self.stack.len() < slots as usize {
            return Err(err_stack_underflow());
        }
        if dest < 0 || dest > self.nodes.len() as i64 {
            return Err(Error::new_parser("jump destination out of bounds"));
        }
        self.drop_slots(slots as usize);
        Ok(())
    }

    /// Start a new block.
    pub fn start_block(&mut self, start: Ip, end: Ip)
        requires
            old(self).inv(),
            start.0 < old(self)@.nodes.len(),
            end.0 <= old(self)@.nodes.len(),
        ensures
            final(self)@ == (LiftState {
                blocks: old(self)@.blocks.push(BlockSpan { start, end }),
                ..old(self)@
            }),
            final(self).inv(),
            final(self).proto() == old(self).proto(),
    {
        self.blocks.push(BlockSpan { start, end });
        assert forall|i: int| 0 <= i < self@.blocks.len() implies (#[trigger] self@.blocks[i]).start.0
            < self@.nodes.len() && self@.blocks[i].end.0 <= self@.nodes.len() by {
            if i < old(self)@.blocks.len() {
                assert(self@.blocks[i] == old(self)@.blocks[i]);
            }
        }
        assert forall|i: int| 0 <= i < self@.stack.len() implies (#[trigger] self@.stack[i]).0
            < self@.nodes.len() by {
            assert(self@.stack[i] == old(self)@.stack[i]);
        }
    }

    /// Closes the innermost open block: collects all the nodes in the block
    /// into a single node, stored at the start of the block.
    #[verifier::rlimit(50)]
    pub fn end_block(&mut self) -> (r: Result<(), Error>)
        requires
            old(self).inv(),
            old(self)@.blocks.len() > 0,
        ensures
            Self::steps(*old(self), *final(self), r, old(self)@.close_block()),
    {
        proof {
            reveal(LiftState::close_block);
        }
        let span: BlockSpan = self.blocks[self.blocks.len() - 1];
        let start: usize = span.start.as_usize();
        let end: usize = span.end.as_usize();
        match &self.nodes[start] {
            None => {
                return Err(err_node_none());
            },
            Some(Node::Partial(_)) => {},
            Some(_) => {
                return Err(err_partial_expected());
            },
        }
        let _ = self.blocks.pop();
        proof {
            assert forall|i: int| 0 <= i < self@.blocks.len() implies (
            #[trigger] self@.blocks[i]).start.0 < self@.nodes.len() && self@.blocks[i].end.0
                <= self@.nodes.len() by {
                assert(self@.blocks[i] == old(self)@.blocks[i]);
            }
            assert forall|i: int| 0 <= i < self@.stack.len() implies (#[trigger] self@.stack[i]).0
                < self@.nodes.len() by {
                assert(self@.stack[i] == old(self)@.stack[i]);
            }
        }
        // Note that the ending instruction is exclusive.
        let body: Block = if start + 1 <= end {
            self.collect_range(start + 1, end)
        } else {
            assert(self@.nodes =~= clear_range(old(self)@.nodes, start + 1, end as int));
            Block { nodes: Vec::new() }
        };
        assert(body@ =~= present_range(old(self)@.nodes, start + 1, end as int));
        match self.take_node(start) {
            Some(Node::Partial(head)) => {
                let stmt: Stmt = match head {
                    Partial::IfHead(if_head) => {
                        let IfHead { expr, then_ } = *if_head;
                        match then_ {
                            None => Stmt::If(IfBlock { head: expr, then_: body, else_: None }),
                            Some(arm) => Stmt::If(
                                IfBlock { head: expr, then_: arm, else_: Some(body) },
                            ),
                        }
                    },
                    Partial::WhileHead(while_head) => {
                        let WhileHead { expr } = *while_head;
                        Stmt::While(WhileBlock { head: expr, body })
                    },
                    Partial::ForHead(for_head) => Stmt::For(ForBlock { head: *for_head, body }),
                };
                // Place the new node into the header instruction.
                self.put_node(start, Node::Stmt(stmt));
                assert(self@.nodes =~= old(self)@.close_block()->Ok_0.nodes);
            },
            _ => {},
        }
        Ok(())
    }

    /// Carries out one instruction.
    fn apply(&mut self, ip: Ip, op: Op) -> (r: Result<(), Error>)
        requires
            old(self).inv(),
            ip.0 < old(self)@.nodes.len(),
        ensures
            Self::steps(*old(self), *final(self), r, old(self)@.apply(old(self).proto(), ip, op)),
    {
        proof {
            reveal(LiftState::apply);
        }
        match op {
            Op::Return { results } => self.parse_return(ip, results),
            Op::Call { stack_offset, results } => self.parse_call(ip, stack_offset, results),
            Op::PushNil { n } => self.parse_push_nil(ip, n),
            Op::Pop { n } => self.parse_pop(n),
            Op::PushInt { signed } => self.parse_push_int(ip, signed),
            Op::PushString { id } => self.parse_push_string(ip, id),
            Op::PushNum { id } => self.parse_push_num(ip, id, false),
            Op::PushNegNum { id } => self.parse_push_num(ip, id, true),
            Op::GetLocal { offset } => self.parse_get_local(ip, offset),
            Op::GetGlobal { string_id } => self.parse_get_global(ip, string_id),
            Op::SetLocal { offset } => self.parse_set_local(ip, offset),
            Op::SetGlobal { string_id } => self.parse_set_global(ip, string_id),
            Op::Add => self.parse_binary_op(ip, BinOp::Add),
            Op::AddI { signed } => self.parse_add_int(ip, signed),
            Op::Sub => self.parse_binary_op(ip, BinOp::Sub),
            Op::Mult => self.parse_binary_op(ip, BinOp::Mult),
            Op::Div => self.parse_binary_op(ip, BinOp::Div),
            Op::Pow => self.parse_binary_op(ip, BinOp::Pow),
            Op::Concat { n } => self.parse_concat(ip, n),
            Op::Minus => self.parse_unary_op(ip, UnOp::Minus),
            Op::Not => self.parse_unary_op(ip, UnOp::Not),
            Op::JumpNe { rel } => self.parse_cond_jump(ip, CondOp::Ne, rel),
            Op::JumpEq { rel } => self.parse_cond_jump(ip, CondOp::Eq, rel),
            Op::JumpLt { rel } => self.parse_cond_jump(ip, CondOp::Lt, rel),
            Op::JumpLe { rel } => self.parse_cond_jump(ip, CondOp::Le, rel),
            Op::JumpGt { rel } => self.parse_cond_jump(ip, CondOp::Gt, rel),
            Op::JumpGe { rel } => self.parse_cond_jump(ip, CondOp::Ge, rel),
            Op::Jump { rel } => self.parse_jump(ip, rel),
            Op::ForPrep { rel } => self.parse_for_prep(ip, rel),
            Op::ForLoop { rel } => self.parse_for_loop(ip, rel, 3),
            Op::LForPrep { rel } => self.parse_lfor_prep(ip, rel),
            Op::LForLoop { rel } => self.parse_for_loop(ip, rel, 4),
            _ => Err(Error::new_parser("unsupported opcode")),
        }
    }

    /// Puts the parser back into the state before the first instruction.
    fn reset(&mut self)
        ensures
            final(self).proto() == old(self).proto(),
            final(self)@ == LiftState::initial(old(self).proto().ops.len()),
            final(self)@.nodes.len() <= u32::MAX ==> final(self).inv(),
    {
        let mut nodes: Vec<Option<Node>> = Vec::new();
        let mut i: usize = 0;
        while i < self.proto.ops.len()
            invariant
                i <= self.proto.ops.len(),
                nodes@.len() == i,
                forall|j: int| 0 <= j < i ==> nodes@[j] is None,
            decreases self.proto.ops.len() - i,
        {
            nodes.push(None);
            i = i + 1;
        }
        self.nodes = nodes;
        self.stack = Vec::new();
        self.blocks = Vec::new();
        self.local_end = 0;
        self.local_namer = lower_case_namer();
        assert(self@.nodes =~= LiftState::initial(self.proto().ops.len()).nodes);
    }

    /// Ends the function at `ip`: promotes what is left on the stack,
    /// clears the stack and collects all remaining nodes, in instruction
    /// order, into the root block.
    #[verifier::loop_isolation(false)]
    fn finish(&mut self, ip: u32) -> (r: Result<Syntax, Error>)
        requires
            old(self).inv(),
        ensures
            final(self).proto() == old(self).proto(),
            match old(self)@.finish(old(self).proto(), ip as nat) {
                Ok((root, state)) => {
                    &&& r is Ok
                    &&& r->Ok_0@ == root
                    &&& crate::lua40::ast::completed(root)
                    &&& final(self)@ == state
                    &&& final(self)@.stack.len() == 0
                },
                Err(e) => r is Err && r->Err_0@ == e,
            },
    {
        proof {
            reveal(LiftState::finish);
        }
        let ghost p = self.proto();
        let mut slot: usize = 0;
        while slot < self.stack.len()
            invariant
                self.inv(),
                self.proto() == old(self).proto(),
                old(self)@.promote_from(p, 0, ip as nat) == self@.promote_from(
                    p,
                    slot as nat,
                    ip as nat,
                ),
            decreases self@.stack.len() - slot,
        {
            match self.promote_slot(slot, ip) {
                Err(e) => {
                    return Err(e);
                },
                Ok(_) => {},
            }
            slot = slot + 1;
        }
        let ghost promoted = self@;
        let root = self.collect_range(0, self.nodes.len());
        assert(promoted.nodes.subrange(0, promoted.nodes.len() as int) =~= promoted.nodes);
        if !root.is_completed() {
            return Err(Error::new_parser("partially built statement left at the end"));
        }
        self.stack = Vec::new();
        self.local_end = 0;
        proof {
            let expected = old(self)@.finish(p, ip as nat)->Ok_0.1;
            assert(self@.nodes =~= expected.nodes);
            assert(self@.stack =~= expected.stack);
        }
        Ok(Syntax { root, debug: () })
    }

    /// Lifts the prototype into a syntax tree.
    ///
    /// The result is that of [`lift`]: each call starts from the empty
    /// state. A tree that comes out holds no partially built statement, and
    /// the simulated stack is empty afterwards.
    #[verifier::loop_isolation(false)]
    #[verifier::rlimit(50)]
    pub fn parse(&mut self) -> (r: Result<Syntax, Error>)
        ensures
            final(self).proto() == old(self).proto(),
            match lift(old(self).proto()) {
                Ok((root, state)) => {
                    &&& r is Ok
                    &&& r->Ok_0@ == root
                    &&& crate::lua40::ast::completed(root)
                    &&& final(self)@ == state
                    &&& final(self)@.stack.len() == 0
                },
                Err(e) => r is Err && r->Err_0@ == e,
            },
    {
        let ghost p = self.proto();
        self.reset();
        let n: usize = self.proto.ops.len();
        if n > u32::MAX as usize {
            return Err(Error::new_parser("too many instructions").at_instruction(u32::MAX as usize));
        }
        let mut ip: usize = 0;
        while ip < n
            invariant
                ip <= n,
                n == p.ops.len(),
                n <= u32::MAX,
                self.inv(),
                self.proto() == old(self).proto(),
                self@.nodes.len() == n,
                lift(p) == self@.run(p, ip as nat),
            decreases n - ip,
        {
            // If we reached the end marker of the block, wrap up
            // by collecting all the nodes in the block into a single node.
            if self.blocks.len() > 0 && self.blocks[self.blocks.len() - 1].end.as_usize() == ip {
                match self.end_block() {
                    Err(e) => {
                        return Err(e.at_instruction(ip));
                    },
                    Ok(_) => {},
                }
            }
            let op: Op = self.proto.ops[ip];
            if let Op::End = op {
                return match self.finish(ip as u32) {
                    Err(e) => Err(e.at_instruction(ip)),
                    Ok(syntax) => Ok(syntax),
                };
            }
            match self.apply(Ip(ip as u32), op) {
                Err(e) => {
                    return Err(e.at_instruction(ip));
                },
                Ok(_) => {},
            }
            ip = ip + 1;
        }
        match self.finish(ip as u32) {
            Err(e) => Err(e.at_instruction(ip)),
            Ok(syntax) => Ok(syntax),
        }
    }

    /// How many slots the simulated stack holds.
    pub fn stack_depth(&self) -> (n: usize)
        ensures
            n == self@.stack.len(),
    {
        self.stack.len()
    }

    /// The name of the global variable that the string constant `string_id` holds.
    pub fn get_global_var_name(&self, string_id: u32) -> (name: &str)
        requires
            string_id < self.proto().constants.strings.len(),
        ensures
            name@ == self.proto().constants.strings[string_id as int],
    {
        self.proto.constants.strings[string_id as usize].as_str()
    }
}

/// The expression that concatenates `values`, grouped to the right.
fn concat_exprs(values: Vec<Expr>) -> (joined: Expr)
    requires
        values@.len() > 0,
    ensures
        joined@ == concat_of(exprs_view(values@)),
{
    let mut values = values;
    let ghost all = exprs_view(values@);
    let mut joined: Expr = values.pop().unwrap();
    assert(all.subrange(all.len() - 1, all.len() as int) =~= seq![joined@]);
    while values.len() > 0
        invariant
            values@.len() < all.len(),
            exprs_view(values@) == all.subrange(0, values@.len() as int),
            joined@ == concat_of(all.subrange(values@.len() as int, all.len() as int)),
        decreases values@.len(),
    {
        let ghost before = values@;
        let lhs = values.pop().unwrap();
        proof {
            let n = values@.len() as int;
            assert(exprs_view(values@) =~= all.subrange(0, n));
            assert(lhs@ == exprs_view(before)[n]);
            let tail = all.subrange(n, all.len() as int);
            assert(tail.drop_first() =~= all.subrange(n + 1, all.len() as int));
            assert(tail[0] == lhs@);
        }
        joined = Expr::Binary(Box::new(BinExpr { op: BinOp::Concat, lhs, rhs: joined }));
    }
    assert(all.subrange(0, all.len() as int) =~= all);
    joined
}

/// Taking expressions out of their slots gives one expression for each slot
/// and leaves as many slots as there were.
pub proof fn lemma_take_exprs_shape(s: LiftState, ips: Seq<Ip>)
    requires
        forall|i: int| 0 <= i < ips.len() ==> (#[trigger] ips[i]).0 < s.nodes.len(),
    ensures
        match s.take_exprs(ips) {
            Ok((exprs, state)) => exprs.len() == ips.len() && state.nodes.len() == s.nodes.len(),
            Err(_) => true,
        },
    decreases ips.len(),
{
    if ips.len() > 0 {
        lemma_take_exprs_shape(s, ips.drop_last());
    }
}

/// Once an expression cannot be taken, taking the rest fails with the same
/// error.
pub proof fn lemma_take_exprs_error_stays(s: LiftState, ips: Seq<Ip>, k: int)
    requires
        0 <= k <= ips.len(),
        s.take_exprs(ips.subrange(0, k)) is Err,
    ensures
        s.take_exprs(ips) == s.take_exprs(ips.subrange(0, k)),
    decreases ips.len() - k,
{
    if k < ips.len() {
        let upto = ips.subrange(0, k + 1);
        assert(upto.drop_last() =~= ips.subrange(0, k));
        lemma_take_exprs_error_stays(s, ips, k + 1);
    } else {
        assert(ips.subrange(0, k) =~= ips);
    }
}

} // verus!
