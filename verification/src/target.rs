//! The target machine: value types, locals and stack instructions.

use vstd::prelude::*;

verus! {

/// A value type of the target machine.
#[derive(Clone, Copy, Debug, PartialEq, Eq, Structural)]
pub enum ValType {
    /// 32-bit integer.
    I32,
    /// 64-bit integer.
    I64,
    /// 32-bit float.
    F32,
    /// 64-bit float.
    F64,
}

/// A local of the module, by the order in which it was allocated.
pub type LocalId = usize;

/// A binary operator of the target machine.
#[derive(Clone, Copy, Debug, PartialEq, Eq, Structural)]
pub enum BinaryOp {
    I32Eq,
    I32Ne,
    I32LeU,
    I64Eq,
    I64Ne,
    I64LeU,
    I32Add,
    I32Sub,
    I64Add,
    I64Sub,
}

/// The label of a sequence that a branch can name.
///
/// Every loop of the restructured control flow gives rise to two nested
/// sequences: the loop itself, to which a branch continues, and a block
/// around it, to which a branch breaks.
#[derive(Clone, Copy, Debug, PartialEq, Eq, Structural)]
pub enum InstrSeqId {
    /// The loop with this id: branching to it starts the next iteration.
    Loop(u16),
    /// The block around the loop with this id: branching to it leaves the loop.
    Exit(u16),
}

/// One instruction of a function body.
///
/// A body is a flat list. `Block`, `Loop` and `If` open a nested sequence that
/// the matching `End` closes; `Else` separates the two arms of an `If`.
#[derive(Clone, Copy, Debug, PartialEq, Eq, Structural)]
pub enum Instr {
    /// Push the value of a local.
    LocalGet(LocalId),
    /// Pop a value into a local.
    LocalSet(LocalId),
    /// Push a 32-bit constant.
    I32Const(i32),
    /// Push a 64-bit constant.
    I64Const(i64),
    /// Pop two operands and push the result of the operator.
    Binop(BinaryOp),
    /// Branch to the labelled sequence.
    Br(InstrSeqId),
    /// Pop a condition and branch to the labelled sequence if it is not zero.
    BrIf(InstrSeqId),
    /// Return from the function.
    Return,
    /// Trap.
    Unreachable,
    /// Open a block with the given label.
    Block(InstrSeqId),
    /// Open a loop with the given label.
    Loop(InstrSeqId),
    /// Pop a condition and open the arm that runs if it is not zero.
    If,
    /// Close the first arm of an `If` and open the arm that runs otherwise.
    Else,
    /// Close the innermost open sequence.
    End,
}

/// The locals of a module: the type of each, in the order of allocation.
pub struct ModuleLocals {
    pub types: Vec<ValType>,
}

impl View for ModuleLocals {
    type V = Seq<ValType>;

    open spec fn view(&self) -> Seq<ValType> {
        self.types@
    }
}

impl ModuleLocals {
    /// No locals.
    pub fn new() -> (r: Self)
        ensures
            r@ == Seq::<ValType>::empty(),
    {
        ModuleLocals { types: Vec::new() }
    }

    /// Allocates a local of the given type. Its id is the number of locals
    /// allocated before it.
    pub fn add(&mut self, ty: ValType) -> (id: LocalId)
        ensures
            id == old(self)@.len(),
            final(self)@ == old(self)@.push(ty),
    {
        let id = self.types.len();
        self.types.push(ty);
        id
    }

    /// The number of locals.
    pub fn len(&self) -> (n: usize)
        ensures
            n == self@.len(),
    {
        self.types.len()
    }

    /// The type of a local, if it was allocated.
    pub fn get(&self, id: LocalId) -> (r: Option<ValType>)
        ensures
            r == (if id < self@.len() { Some(self@[id as int]) } else { None }),
    {
        if id < self.types.len() {
            Some(self.types[id])
        } else {
            None
        }
    }
}

} // verus!

verus! {

/// The low 32 bits of a 64-bit immediate, as a signed number.
pub open spec fn low_word(imm: i64) -> i32 {
    imm as i32
}

/// The low 32 bits of a 64-bit immediate, as a signed number.
pub fn low_word_of(imm: i64) -> (r: i32)
    ensures
        r == low_word(imm),
{
    #[verifier::truncate]
    (imm as i32)
}

/// The 32-bit constant that stands for a block id in a dispatch local: the
/// id's bits, as a signed number.
pub open spec fn label_word(block: u32) -> i32 {
    block as i32
}

/// The 32-bit constant that stands for a block id in a dispatch local.
pub fn label_word_of(block: u32) -> (r: i32)
    ensures
        r == label_word(block),
{
    #[verifier::truncate]
    (block as i32)
}

} // verus!
