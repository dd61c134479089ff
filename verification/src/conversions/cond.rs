//! The target operator of an integer condition.

use vstd::prelude::*;

use crate::error::TranslationError;
use crate::ir::IntCC;
use crate::target::BinaryOp;

verus! {

/// The operator that tests a condition on two integers of 32 bits, or of 64.
/// Equality, inequality and unsigned less-or-equal have one.
pub open spec fn cond_op(cond: IntCC, bits_32: bool) -> Option<BinaryOp> {
    match cond {
        IntCC::Equal => Some(if bits_32 { BinaryOp::I32Eq } else { BinaryOp::I64Eq }),
        IntCC::NotEqual => Some(if bits_32 { BinaryOp::I32Ne } else { BinaryOp::I64Ne }),
        IntCC::UnsignedLessThanOrEqual => Some(
            if bits_32 {
                BinaryOp::I32LeU
            } else {
                BinaryOp::I64LeU
            },
        ),
        _ => None,
    }
}

/// The operator that tests a condition, or the condition as unimplemented.
pub fn wasm_of_cond(cond: IntCC, bits_32: bool) -> (r: Result<BinaryOp, TranslationError>)
    ensures
        r == (match cond_op(cond, bits_32) {
            Some(op) => Ok::<BinaryOp, TranslationError>(op),
            None => Err(TranslationError::UnimplementedCondition(cond)),
        }),
{
    match cond {
        IntCC::Equal => Ok(if bits_32 { BinaryOp::I32Eq } else { BinaryOp::I64Eq }),
        IntCC::NotEqual => Ok(if bits_32 { BinaryOp::I32Ne } else { BinaryOp::I64Ne }),
        IntCC::UnsignedLessThanOrEqual => Ok(
            if bits_32 {
                BinaryOp::I32LeU
            } else {
                BinaryOp::I64LeU
            },
        ),
        _ => Err(TranslationError::UnimplementedCondition(cond)),
    }
}

} // verus!
