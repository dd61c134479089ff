//! The target type of a scalar source type.

use vstd::prelude::*;

use crate::error::TranslationError;
use crate::ir::{Type, TypeKind};
use crate::target::ValType;

verus! {

/// The target type of a source type: integers and booleans of 32 and 64 bits
/// map to the integer of that width, floats of 32 and 64 bits to the float of
/// that width. No other type has a counterpart.
pub open spec fn wasm_type(ty: Type) -> Option<ValType> {
    if (ty.kind == TypeKind::Int || ty.kind == TypeKind::Bool) && ty.bits == 32 {
        Some(ValType::I32)
    } else if (ty.kind == TypeKind::Int || ty.kind == TypeKind::Bool) && ty.bits == 64 {
        Some(ValType::I64)
    } else if ty.kind == TypeKind::Float && ty.bits == 32 {
        Some(ValType::F32)
    } else if ty.kind == TypeKind::Float && ty.bits == 64 {
        Some(ValType::F64)
    } else {
        None
    }
}

/// Converts a source type into its target form, or reports the type as
/// unsupported.
pub fn wasm_of_cranelift(ty: Type) -> (r: Result<ValType, TranslationError>)
    ensures
        r == (match wasm_type(ty) {
            Some(t) => Ok::<ValType, TranslationError>(t),
            None => Err(TranslationError::UnsupportedType(ty)),
        }),
{
    let integral = ty.is_int() || ty.is_bool();
    if integral && ty.bits() == 32 {
        Ok(ValType::I32)
    } else if integral && ty.bits() == 64 {
        Ok(ValType::I64)
    } else if ty.is_float() && ty.bits() == 32 {
        Ok(ValType::F32)
    } else if ty.is_float() && ty.bits() == 64 {
        Ok(ValType::F64)
    } else {
        Err(TranslationError::UnsupportedType(ty))
    }
}

} // verus!
