//! The intermediate representation the code generator emits: a module of
//! named functions, each a single entry block of typed instructions ending
//! in a return terminator. Storage slots live in a module-wide arena.

use vstd::prelude::*;
use crate::shared::KindName;

verus! {

/// An arithmetic operation over numeric values.
#[derive(Copy, Clone, Debug, PartialEq, Eq, Structural)]
pub enum BinOp {
    Add,
    Sub,
    Mul,
    Div,
}

/// A value an instruction can consume: a numeric constant (an IEEE 754
/// double bit pattern), the result of an earlier instruction of the same
/// function, or one of the function's parameters.
#[derive(Copy, Clone, Debug, PartialEq, Eq, Structural)]
pub enum Value {
    Const { bits: u64 },
    Reg { index: usize },
    Param { index: usize },
}

/// One typed instruction. `Load`, `Bin` and `Call` yield a value; the value
/// is referred to by the instruction's index within the function body
/// (`Value::Reg`).
#[derive(Debug)]
pub enum Instr {
    /// Reserve storage slot `slot` for a binding named `name`;
    /// `arg` marks storage that backs an incoming function parameter.
    Alloca { slot: usize, name: String, arg: bool },
    /// Write `value` into storage slot `slot`.
    Store { slot: usize, value: Value },
    /// Read the current contents of storage slot `slot`.
    Load { slot: usize },
    /// Combine two numeric values with an arithmetic operator.
    Bin { op: BinOp, left: Value, right: Value },
    /// Call the module's function number `func` with the given arguments.
    Call { func: usize, args: Vec<Value> },
    /// Return from the function, with a value iff it returns one.
    Ret { value: Option<Value> },
}

/// One emitted function: a name, the concrete kinds of its parameters and
/// result, and a single entry block of instructions.
#[derive(Debug)]
pub struct IrFunction {
    pub name: String,
    pub param_kinds: Vec<KindName>,
    pub return_kind: KindName,
    pub body: Vec<Instr>,
}

/// The emitted output: a set of named functions, and the storage arena
/// their instructions refer to — one entry per slot, carrying the slot's
/// type. Slot lifetime is owned by this arena, not by any scope frame.
#[derive(Debug)]
pub struct IrModule {
    pub functions: Vec<IrFunction>,
    pub slots: Vec<KindName>,
}

/// An instruction, seen mathematically: collection-valued fields become
/// sequences so that specifications can state exactly which instructions a
/// compilation step appends.
pub enum InstrView {
    Alloca { slot: int, name: Seq<char>, arg: bool },
    Store { slot: int, value: Value },
    Load { slot: int },
    Bin { op: BinOp, left: Value, right: Value },
    Call { func: int, args: Seq<Value> },
    Ret { value: Option<Value> },
}

/// The mathematical reading of one instruction.
pub open spec fn instr_view(i: Instr) -> InstrView {
    match i {
        Instr::Alloca { slot, name, arg } => InstrView::Alloca { slot: slot as int, name: name@, arg },
        Instr::Store { slot, value } => InstrView::Store { slot: slot as int, value },
        Instr::Load { slot } => InstrView::Load { slot: slot as int },
        Instr::Bin { op, left, right } => InstrView::Bin { op, left, right },
        Instr::Call { func, args } => InstrView::Call { func: func as int, args: args@ },
        Instr::Ret { value } => InstrView::Ret { value },
    }
}

/// The mathematical reading of a whole block.
pub open spec fn body_view(b: Seq<Instr>) -> Seq<InstrView> {
    b.map_values(|x: Instr| instr_view(x))
}

/// Reading a block distributes over concatenation.
pub proof fn lemma_body_view_concat(a: Seq<Instr>, b: Seq<Instr>)
    ensures
        body_view(a + b) == body_view(a) + body_view(b),
{
    assert(body_view(a + b) =~= body_view(a) + body_view(b));
}

/// Two functions with the same name and signature.
pub open spec fn fn_header_eq(a: IrFunction, b: IrFunction) -> bool {
    &&& a.name@ == b.name@
    &&& a.param_kinds@ == b.param_kinds@
    &&& a.return_kind == b.return_kind
}

/// How a module may grow while compilation proceeds: functions are only
/// appended, an existing function keeps its header and its body is only
/// extended, and storage slots are never taken back.
pub open spec fn module_extends(m0: IrModule, m1: IrModule) -> bool {
    &&& m0.functions@.len() <= m1.functions@.len()
    &&& m0.slots@.is_prefix_of(m1.slots@)
    &&& forall|i: int|
        0 <= i < m0.functions@.len() ==> fn_header_eq(m0.functions@[i], #[trigger] m1.functions@[i])
            && m0.functions@[i].body@.is_prefix_of(m1.functions@[i].body@)
}

/// Growth that touches one function only: the body of function `cb` is
/// extended in place, everything else — headers, other functions, the slot
/// arena — stays exactly as it was.
pub open spec fn module_extended_at(m0: IrModule, m1: IrModule, cb: int) -> bool {
    &&& 0 <= cb < m0.functions@.len()
    &&& m1.functions@.len() == m0.functions@.len()
    &&& m1.slots@ == m0.slots@
    &&& fn_header_eq(m0.functions@[cb], m1.functions@[cb])
    &&& m0.functions@[cb].body@.is_prefix_of(m1.functions@[cb].body@)
    &&& forall|i: int|
        0 <= i < m0.functions@.len() && i != cb ==> (#[trigger] m1.functions@[i])
            == m0.functions@[i]
}

/// Growth at one function by an exact run of instructions.
pub open spec fn body_extended(m0: IrModule, m1: IrModule, cb: int, instrs: Seq<Instr>) -> bool {
    &&& module_extended_at(m0, m1, cb)
    &&& m1.functions@[cb].body@ == m0.functions@[cb].body@ + instrs
}

/// A module extends itself.
pub proof fn lemma_module_extends_refl(m: IrModule)
    ensures
        module_extends(m, m),
{
}

/// Module growth composes.
pub proof fn lemma_module_extends_trans(m0: IrModule, m1: IrModule, m2: IrModule)
    requires
        module_extends(m0, m1),
        module_extends(m1, m2),
    ensures
        module_extends(m0, m2),
{
    assert forall|i: int| 0 <= i < m0.functions@.len() implies fn_header_eq(
        m0.functions@[i],
        #[trigger] m2.functions@[i],
    ) && m0.functions@[i].body@.is_prefix_of(m2.functions@[i].body@) by {
        assert(fn_header_eq(m0.functions@[i], m1.functions@[i]));
        assert(m0.functions@[i].body@.is_prefix_of(m1.functions@[i].body@));
        assert(m1.functions@[i].body@.is_prefix_of(m2.functions@[i].body@));
    }
}

/// A module grows-at-one-function into itself.
pub proof fn lemma_extended_at_refl(m: IrModule, cb: int)
    requires
        0 <= cb < m.functions@.len(),
    ensures
        module_extended_at(m, m, cb),
{
    assert(m.functions@[cb].body@.subrange(0, m.functions@[cb].body@.len() as int)
        =~= m.functions@[cb].body@);
}

/// Single-function growth stays within `module_extends`.
pub proof fn lemma_extended_at_extends(m0: IrModule, m1: IrModule, cb: int)
    requires
        module_extended_at(m0, m1, cb),
    ensures
        module_extends(m0, m1),
{
}

/// Single-function growth composes.
pub proof fn lemma_extended_at_trans(m0: IrModule, m1: IrModule, m2: IrModule, cb: int)
    requires
        module_extended_at(m0, m1, cb),
        module_extended_at(m1, m2, cb),
    ensures
        module_extended_at(m0, m2, cb),
{
}

impl IrModule {
    /// A module with no functions and no storage.
    pub fn new() -> (r: IrModule)
        ensures
            r.functions@.len() == 0,
            r.slots@.len() == 0,
    {
        IrModule { functions: Vec::new(), slots: Vec::new() }
    }
}

} // verus!
