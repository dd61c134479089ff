//! What a lowering step emits: instructions, a new state of the tables, and
//! success or the error that stopped it.

use vstd::prelude::*;

use crate::error::TranslationError;
use crate::target::Instr;
use crate::translator::TranslatorState;

verus! {

/// The outcome of a lowering step.
///
/// A step that fails has still emitted the instructions in `code` and brought
/// the tables to `state` before it failed.
pub ghost struct Emission {
    /// The instructions emitted, in order.
    pub code: Seq<Instr>,
    /// The tables after the step.
    pub state: TranslatorState,
    /// Whether the step ran to its end.
    pub result: Result<(), TranslationError>,
}

impl Emission {
    /// The step that emits nothing and succeeds.
    pub open spec fn start(state: TranslatorState) -> Emission {
        Emission { code: Seq::empty(), state, result: Ok(()) }
    }

    /// Did the step run to its end?
    pub open spec fn is_ok(self) -> bool {
        self.result is Ok
    }

    /// The step, followed by one more instruction if it succeeded.
    pub open spec fn emit(self, instr: Instr) -> Emission {
        if self.result is Ok {
            Emission { code: self.code.push(instr), ..self }
        } else {
            self
        }
    }

    /// The step, followed by a failure if it succeeded.
    pub open spec fn fail(self, error: TranslationError) -> Emission {
        if self.result is Ok {
            Emission { result: Err(error), ..self }
        } else {
            self
        }
    }

    /// The step, followed by a step that started from its state if it
    /// succeeded.
    pub open spec fn join(self, next: Emission) -> Emission {
        if self.result is Ok {
            Emission { code: self.code + next.code, state: next.state, result: next.result }
        } else {
            self
        }
    }
}

/// The fuel that is left for the operands of an instruction.
pub open spec fn spent(fuel: nat) -> nat {
    if fuel > 0 {
        (fuel - 1) as nat
    } else {
        0
    }
}

/// A count of the machine, as a number.
pub open spec fn nat_of(n: usize) -> nat {
    n as nat
}

/// A result without a value that is a success is the success.
pub proof fn lemma_ok_unit(result: Result<(), TranslationError>)
    requires
        result is Ok,
    ensures
        result == Ok::<(), TranslationError>(()),
{
    match result {
        Ok(unit) => {
            assert(unit == ());
        },
        Err(_) => {},
    }
}

} // verus!
