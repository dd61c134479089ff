//! The ways in which a translation is abandoned.

use vstd::prelude::*;

use crate::ir::{Block, Inst, IntCC, Opcode, Type, Value};
use crate::target::{InstrSeqId, LocalId};

verus! {

/// Why a function could not be translated.
///
/// Every error is fatal to the function being translated: nothing of what was
/// emitted up to the error is kept.
#[derive(Clone, Copy, Debug, PartialEq, Eq, Structural)]
pub enum TranslationError {
    /// The instruction is an atomic operation, which the target cannot express.
    UnsupportedOnTarget(Inst),
    /// No lowering exists for an instruction with this opcode.
    UnimplementedOpcode(Opcode),
    /// No lowering exists for this integer condition.
    UnimplementedCondition(IntCC),
    /// The edge to this block leads into a selector, and the block that it
    /// leaves has no dispatch local for it.
    UndispatchedBlock(Block),
    /// The type has no counterpart on the target, or the operation is not
    /// defined at it.
    UnsupportedType(Type),
    /// A value id that the function does not define.
    UnknownValue(Value),
    /// An instruction id that the function does not define.
    UnknownInst(Inst),
    /// A branch to a block that is not in the layout.
    UnknownBlock(Block),
    /// A selector dispatches on the block of this id, which is the number
    /// that tells a selector to choose no arm.
    ReservedBlock(Block),
    /// Two blocks of the layout are out of ascending order of their ids.
    UnorderedBlock(Block),
    /// The function has no block.
    EmptyFunction,
    /// A block parameter for which no local was allocated.
    MissingLocal(Value),
    /// An instruction that should define a value and has no result.
    MissingResult(Inst),
    /// The definitions of the operands of this instruction nest deeper than
    /// the function has instructions, so they form a cycle.
    DefinitionCycle(Inst),
    /// An edge whose argument count differs from the parameter count of its
    /// destination.
    ArityMismatch(Inst),
    /// A continue edge to a loop that was never opened.
    MissingLoop(u16),
    /// A selector that no preceding block set up a dispatch local for.
    MissingDispatchLocal,
    /// A jump, branch or return in the place of an instruction that defines a
    /// value.
    MisplacedTerminator(Inst),
    /// There are as many locals as the machine can count.
    TooManyLocals,
    /// A branch instruction without a condition operand.
    MissingCondition(Inst),
    /// The instruction at this position of a body closes a sequence, or
    /// separates the arms of one, that was not opened.
    UnopenedSequence(usize),
    /// The instruction at this position of a body closes an `if` that has no
    /// `else`.
    MissingElse(usize),
    /// A body that ends with this many sequences still open.
    UnclosedSequence(usize),
    /// An instruction that opens, closes or separates sequences stands where
    /// one that nests nothing belongs.
    MisplacedMarker,
    /// A branch of a body to a sequence that does not enclose it.
    UnboundLabel(InstrSeqId),
    /// An instruction of a body names a local that the body does not have.
    UnknownLocal(LocalId),
    /// The function id was not declared.
    UndeclaredFunction(usize),
    /// The function id was defined already.
    DefinedTwice(usize),
    /// The data id was not declared.
    UndeclaredData(usize),
    /// No content was given for the data segment.
    UninitializedData(usize),
    /// The linkage is reserved.
    UnsupportedLinkage,
    /// The parameters of the entry block do not have the types of the
    /// parameters that the function was declared with.
    SignatureMismatch(usize),
}

/// The three classes of failure.
#[derive(Clone, Copy, Debug, PartialEq, Eq, Structural)]
pub enum ErrorClass {
    /// The operation cannot be expressed on the target at all.
    UnsupportedOnTarget,
    /// The operation could be expressed, but no lowering is implemented.
    Unimplemented,
    /// The input breaks a structural expectation.
    IntegrityViolation,
}

impl TranslationError {
    /// The class that an error belongs to.
    pub open spec fn spec_class(self) -> ErrorClass {
        match self {
            TranslationError::UnsupportedOnTarget(_) => ErrorClass::UnsupportedOnTarget,
            TranslationError::UnimplementedOpcode(_)
            | TranslationError::UnimplementedCondition(_)
            | TranslationError::UnsupportedType(_) => ErrorClass::Unimplemented,
            _ => ErrorClass::IntegrityViolation,
        }
    }

    /// The class that an error belongs to.
    pub fn class(&self) -> (r: ErrorClass)
        ensures
            r == self.spec_class(),
    {
        match self {
            TranslationError::UnsupportedOnTarget(_) => ErrorClass::UnsupportedOnTarget,
            TranslationError::UnimplementedOpcode(_)
            | TranslationError::UnimplementedCondition(_)
            | TranslationError::UnsupportedType(_) => ErrorClass::Unimplemented,
            _ => ErrorClass::IntegrityViolation,
        }
    }
}

} // verus!
