//! Instructions and validated programs.
//!
//! A [`Program`] is the immutable result of a successful parse: an ordered
//! instruction sequence, the source line of each instruction (for
//! diagnostics), and the label table. Every jump in a well-formed program
//! names a label present in the table, whose target is a valid instruction
//! index; this is validated at parse time, never at execution time.

use vstd::prelude::*;

use crate::value::Value;
use crate::value::ValueV;

verus! {

/// One instruction: an opcode with at most one immediate operand.
#[derive(Debug, PartialEq)]
pub enum Instr {
    /// No effect.
    Nop,
    /// Push the immediate value.
    Push(Value),
    /// Pop that many values.
    PopN(usize),
    Add,
    Sub,
    Mul,
    Div,
    Mod,
    Neg,
    Dup,
    Equal,
    NotEqual,
    Greater,
    Less,
    GreaterEq,
    LessEq,
    And,
    Or,
    Not,
    Xor,
    Min,
    Max,
    Abs,
    Sign,
    Len,
    Print,
    Println,
    /// Read a line of input; this interpreter attaches no input source, so
    /// executing it is a runtime fault.
    Read,
    /// Pop an index, push the run argument at that index (or nil).
    GetArg,
    /// Pop a condition (optionally preceded by a message) and fail unless it
    /// is truthy.
    Assert,
    /// Pop a message and raise it as a script error.
    Raise,
    /// Pop an exit code and terminate the run.
    Exit,
    /// Pop a value and push its conversion to the named type.
    Convert(String),
    /// Unconditional jump to the named label.
    Goto(String),
    /// Pop a boolean; jump to the named label when it is true.
    Br(String),
    /// A label definition; executing it has no effect.
    Label(String),
    /// Push the named variable's value.
    Load(String),
    /// Pop a value into the named variable.
    Store(String),
}

/// Model of an [`Instr`].
pub ghost enum InstrV {
    Nop,
    Push(ValueV),
    PopN(int),
    Add,
    Sub,
    Mul,
    Div,
    Mod,
    Neg,
    Dup,
    Equal,
    NotEqual,
    Greater,
    Less,
    GreaterEq,
    LessEq,
    And,
    Or,
    Not,
    Xor,
    Min,
    Max,
    Abs,
    Sign,
    Len,
    Print,
    Println,
    Read,
    GetArg,
    Assert,
    Raise,
    Exit,
    Convert(Seq<char>),
    Goto(Seq<char>),
    Br(Seq<char>),
    Label(Seq<char>),
    Load(Seq<char>),
    Store(Seq<char>),
}

impl View for Instr {
    type V = InstrV;

    open spec fn view(&self) -> InstrV {
        match self {
            Instr::Nop => InstrV::Nop,
            Instr::Push(v) => InstrV::Push(v@),
            Instr::PopN(n) => InstrV::PopN(*n as int),
            Instr::Add => InstrV::Add,
            Instr::Sub => InstrV::Sub,
            Instr::Mul => InstrV::Mul,
            Instr::Div => InstrV::Div,
            Instr::Mod => InstrV::Mod,
            Instr::Neg => InstrV::Neg,
            Instr::Dup => InstrV::Dup,
            Instr::Equal => InstrV::Equal,
            Instr::NotEqual => InstrV::NotEqual,
            Instr::Greater => InstrV::Greater,
            Instr::Less => InstrV::Less,
            Instr::GreaterEq => InstrV::GreaterEq,
            Instr::LessEq => InstrV::LessEq,
            Instr::And => InstrV::And,
            Instr::Or => InstrV::Or,
            Instr::Not => InstrV::Not,
            Instr::Xor => InstrV::Xor,
            Instr::Min => InstrV::Min,
            Instr::Max => InstrV::Max,
            Instr::Abs => InstrV::Abs,
            Instr::Sign => InstrV::Sign,
            Instr::Len => InstrV::Len,
            Instr::Print => InstrV::Print,
            Instr::Println => InstrV::Println,
            Instr::Read => InstrV::Read,
            Instr::GetArg => InstrV::GetArg,
            Instr::Assert => InstrV::Assert,
            Instr::Raise => InstrV::Raise,
            Instr::Exit => InstrV::Exit,
            Instr::Convert(t) => InstrV::Convert(t@),
            Instr::Goto(l) => InstrV::Goto(l@),
            Instr::Br(l) => InstrV::Br(l@),
            Instr::Label(l) => InstrV::Label(l@),
            Instr::Load(v) => InstrV::Load(v@),
            Instr::Store(v) => InstrV::Store(v@),
        }
    }
}

impl DeepView for Instr {
    type V = InstrV;

    open spec fn deep_view(&self) -> InstrV {
        self.view()
    }
}

/// The label table a sequence of (name, index) entries denotes: a later
/// entry for the same name wins.
pub open spec fn labels_map(s: Seq<(String, usize)>) -> Map<Seq<char>, int>
    decreases s.len(),
{
    if s.len() == 0 {
        Map::empty()
    } else {
        labels_map(s.drop_last()).insert(s.last().0@, s.last().1 as int)
    }
}

/// The label table of an instruction sequence: each `Label` maps its name to
/// its own index; the last definition of a name wins.
pub open spec fn labels_of(instrs: Seq<InstrV>) -> Map<Seq<char>, int>
    decreases instrs.len(),
{
    if instrs.len() == 0 {
        Map::empty()
    } else {
        let m = labels_of(instrs.drop_last());
        match instrs.last() {
            InstrV::Label(n) => m.insert(n, instrs.len() - 1),
            _ => m,
        }
    }
}

pub proof fn lemma_labels_of_range(instrs: Seq<InstrV>)
    ensures
        forall|n: Seq<char>| #[trigger] labels_of(instrs).contains_key(n)
            ==> 0 <= labels_of(instrs)[n] < instrs.len(),
    decreases instrs.len(),
{
    if instrs.len() > 0 {
        lemma_labels_of_range(instrs.drop_last());
        assert forall|n: Seq<char>| #[trigger] labels_of(instrs).contains_key(n)
            implies 0 <= labels_of(instrs)[n] < instrs.len() by {
            match instrs.last() {
                InstrV::Label(m) => {
                    if n != m {
                        assert(labels_of(instrs.drop_last()).contains_key(n));
                    }
                },
                _ => {
                    assert(labels_of(instrs) == labels_of(instrs.drop_last()));
                },
            }
        }
    }
}

/// A `Label(n)` instruction anywhere in the sequence puts `n` in the table.
pub proof fn lemma_labels_of_contains(instrs: Seq<InstrV>, i: int, n: Seq<char>)
    requires
        0 <= i < instrs.len(),
        instrs[i] == InstrV::Label(n),
    ensures
        labels_of(instrs).contains_key(n),
    decreases instrs.len(),
{
    if i < instrs.len() - 1 {
        assert(instrs.drop_last()[i] == InstrV::Label(n));
        lemma_labels_of_contains(instrs.drop_last(), i, n);
    }
}

/// Whether an instruction's jump, if any, lands inside the program.
pub open spec fn jump_ok(ins: InstrV, labels: Map<Seq<char>, int>, n: int) -> bool {
    match ins {
        InstrV::Goto(l) => labels.contains_key(l) && 0 <= labels[l] < n,
        InstrV::Br(l) => labels.contains_key(l) && 0 <= labels[l] < n,
        _ => true,
    }
}

/// Model of a [`Program`].
pub ghost struct ProgramV {
    pub instrs: Seq<InstrV>,
    pub lines: Seq<int>,
    pub labels: Map<Seq<char>, int>,
}

impl ProgramV {
    /// Static validity: one source line per instruction, and every jump
    /// resolves to an instruction index.
    pub open spec fn wf(self) -> bool {
        &&& self.lines.len() == self.instrs.len()
        &&& forall|i: int| 0 <= i < self.instrs.len()
            ==> jump_ok(#[trigger] self.instrs[i], self.labels, self.instrs.len() as int)
    }
}

/// A fully parsed, statically valid script. Immutable after construction;
/// safe to execute repeatedly from independent interpreter instances.
#[derive(Debug, PartialEq)]
pub struct Program {
    pub instrs: Vec<Instr>,
    pub lines: Vec<usize>,
    pub labels: Vec<(String, usize)>,
}

impl View for Program {
    type V = ProgramV;

    open spec fn view(&self) -> ProgramV {
        ProgramV {
            instrs: self.instrs.deep_view(),
            lines: self.lines@.map_values(|x: usize| x as int),
            labels: labels_map(self.labels@),
        }
    }
}

impl Program {
    /// Number of instructions.
    pub fn len(&self) -> (r: usize)
        ensures
            r == self@.instrs.len(),
    {
        self.instrs.len()
    }
}

} // verus!
