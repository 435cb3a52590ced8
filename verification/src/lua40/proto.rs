//! Function prototypes: what the decoder yields and the parser consumes.
use vstd::prelude::*;
use crate::lua40::number::Number;
use crate::lua40::opcode::Op;

verus! {

/// Debug information for local variable.
#[derive(Debug)]
pub struct Local {
    pub varname: String,
    /// Point where variable is live.
    pub startpc: u32,
    /// Point where variable is dead.
    pub endpc: u32,
}

/// The constant pools of a function.
#[derive(Debug)]
pub struct Constants {
    pub strings: Vec<String>,
    pub numbers: Vec<Number>,
    pub protos: Vec<Proto>,
}

/// Function prototype.
#[derive(Debug)]
pub struct Proto {
    /// The instruction words as they stand in the chunk.
    pub code: Vec<u32>,
    /// The instructions that the words decode to, one for one.
    pub ops: Vec<Op>,
    pub source: String,
    pub line_defined: u32,
    pub num_params: u32,
    pub is_vararg: bool,
    pub max_stack: u32,
    pub locals: Vec<Local>,
    pub constants: Constants,
    /// The source line of each instruction; empty in a stripped chunk.
    pub lines: Vec<u32>,
}

/// Mathematical view of a [`Local`].
pub ghost struct LocalView {
    pub varname: Seq<char>,
    pub startpc: u32,
    pub endpc: u32,
}

/// Mathematical view of [`Constants`].
pub ghost struct ConstantsView {
    pub strings: Seq<Seq<char>>,
    pub numbers: Seq<Number>,
    pub protos: Seq<ProtoView>,
}

/// Mathematical view of a [`Proto`]: the same tree over sequences.
pub ghost struct ProtoView {
    pub code: Seq<u32>,
    pub ops: Seq<Op>,
    pub source: Seq<char>,
    pub line_defined: u32,
    pub num_params: u32,
    pub is_vararg: bool,
    pub max_stack: u32,
    pub locals: Seq<LocalView>,
    pub constants: ConstantsView,
    pub lines: Seq<u32>,
}

impl View for Local {
    type V = LocalView;

    open spec fn view(&self) -> LocalView {
        LocalView { varname: self.varname@, startpc: self.startpc, endpc: self.endpc }
    }
}

/// The views of a sequence of strings, one by one.
pub open spec fn strings_view(s: Seq<String>) -> Seq<Seq<char>> {
    Seq::new(s.len(), |i: int| s[i]@)
}

/// The views of a sequence of debug records, one by one.
pub open spec fn locals_view(s: Seq<Local>) -> Seq<LocalView> {
    Seq::new(s.len(), |i: int| s[i]@)
}

/// The view of a prototype: the same tree over sequences.
pub open spec fn proto_view(p: Proto) -> ProtoView
    decreases p,
{
    ProtoView {
        code: p.code@,
        ops: p.ops@,
        source: p.source@,
        line_defined: p.line_defined,
        num_params: p.num_params,
        is_vararg: p.is_vararg,
        max_stack: p.max_stack,
        locals: locals_view(p.locals@),
        constants: ConstantsView {
            strings: strings_view(p.constants.strings@),
            numbers: p.constants.numbers@,
            protos: protos_view(p.constants.protos@),
        },
        lines: p.lines@,
    }
}

/// The views of a sequence of prototypes, one by one.
pub open spec fn protos_view(s: Seq<Proto>) -> Seq<ProtoView>
    decreases s,
{
    Seq::new(
        s.len(),
        |i: int|
            if 0 <= i < s.len() {
                proto_view(s[i])
            } else {
                arbitrary()
            },
    )
}

impl View for Proto {
    type V = ProtoView;

    open spec fn view(&self) -> ProtoView {
        proto_view(*self)
    }
}

impl View for Constants {
    type V = ConstantsView;

    open spec fn view(&self) -> ConstantsView {
        ConstantsView {
            strings: strings_view(self.strings@),
            numbers: self.numbers@,
            protos: protos_view(self.protos@),
        }
    }
}

impl ProtoView {
    /// The invariant of a prototype: it has one decoded instruction for each
    /// instruction word and, where the line table is present, one line for
    /// each; and so has every prototype nested in it.
    pub open spec fn well_formed(self) -> bool
        decreases self,
    {
        &&& self.ops.len() == self.code.len()
        &&& self.lines.len() == 0 || self.lines.len() == self.code.len()
        &&& forall|i: int|
            0 <= i < self.constants.protos.len() ==> (#[trigger] self.constants.protos[i]).well_formed()
    }
}

} // verus!
