//! The target types of a signature.

use vstd::prelude::*;

use crate::conversions::ty::{wasm_of_cranelift, wasm_type};
use crate::error::TranslationError;
use crate::ir::{AbiParam, Signature};
use crate::target::ValType;

verus! {

/// The target types of a list of parameters, or the first of them that has
/// none.
pub open spec fn wasm_types(params: Seq<AbiParam>) -> Result<Seq<ValType>, TranslationError>
    decreases params.len(),
{
    if params.len() == 0 {
        Ok(Seq::empty())
    } else {
        match wasm_types(params.drop_last()) {
            Err(e) => Err(e),
            Ok(types) => match wasm_type(params.last().value_type) {
                Some(t) => Ok(types.push(t)),
                None => Err(TranslationError::UnsupportedType(params.last().value_type)),
            },
        }
    }
}

/// The target types of a signature: those of its parameters and those of its
/// return values. An unsupported parameter is reported before an unsupported
/// return value.
pub open spec fn wasm_signature(sig: Signature) -> Result<
    (Seq<ValType>, Seq<ValType>),
    TranslationError,
> {
    match wasm_types(sig.params@) {
        Err(e) => Err(e),
        Ok(params) => match wasm_types(sig.returns@) {
            Err(e) => Err(e),
            Ok(results) => Ok((params, results)),
        },
    }
}

/// A failure among the first parameters is the failure of the whole list.
pub proof fn lemma_wasm_types_prefix(params: Seq<AbiParam>, n: int)
    requires
        0 <= n <= params.len(),
        wasm_types(params.take(n)) is Err,
    ensures
        wasm_types(params) == wasm_types(params.take(n)),
    decreases params.len(),
{
    if n < params.len() {
        assert(params.drop_last().take(n) == params.take(n));
        lemma_wasm_types_prefix(params.drop_last(), n);
    } else {
        assert(params.take(n) == params);
    }
}

fn wasm_of_params(params: &Vec<AbiParam>) -> (r: Result<Vec<ValType>, TranslationError>)
    ensures
        match wasm_types(params@) {
            Ok(types) => r is Ok && r->Ok_0@ == types,
            Err(e) => r == Err::<Vec<ValType>, TranslationError>(e),
        },
{
    let mut types: Vec<ValType> = Vec::new();
    let mut i: usize = 0;
    assert(params@.take(0) == Seq::<AbiParam>::empty());
    while i < params.len()
        invariant
            i <= params.len(),
            wasm_types(params@.take(i as int)) == Ok::<Seq<ValType>, TranslationError>(types@),
        decreases params.len() - i,
    {
        assert(params@.take(i + 1).drop_last() == params@.take(i as int));
        match wasm_of_cranelift(params[i].value_type) {
            Ok(t) => types.push(t),
            Err(e) => {
                proof {
                    lemma_wasm_types_prefix(params@, i + 1);
                }
                return Err(e);
            },
        }
        i += 1;
    }
    assert(params@.take(i as int) == params@);
    Ok(types)
}

/// Transforms a signature into the target types of its parameters and of its
/// return values.
pub fn wasm_of_sig(sig: &Signature) -> (r: Result<(Vec<ValType>, Vec<ValType>), TranslationError>)
    ensures
        match wasm_signature(*sig) {
            Ok((params, results)) => r is Ok && r->Ok_0.0@ == params && r->Ok_0.1@ == results,
            Err(e) => r == Err::<(Vec<ValType>, Vec<ValType>), TranslationError>(e),
        },
{
    let params = wasm_of_params(&sig.params)?;
    let results = wasm_of_params(&sig.returns)?;
    Ok((params, results))
}

} // verus!
