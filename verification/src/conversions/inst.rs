//! The lowering of instructions that do not transfer control, and of the
//! values that they use.

use vstd::prelude::*;

use crate::assoc::{find, lookup};
use crate::conversions::block::CanBranchTo;
use crate::conversions::cond::{cond_op, wasm_of_cond};
use crate::conversions::ty::{wasm_of_cranelift, wasm_type};
use crate::emission::{nat_of, spent, Emission};
use crate::error::TranslationError;
use crate::ir::{
    Block, SourceFunction, Inst, InstructionData, IntCC, Opcode, Type, TypeKind, Value, ValueDef,
};
use crate::optable::{classify, Operand, OperandTableView};
use crate::target::{low_word, low_word_of, BinaryOp, Instr, LocalId};
use crate::translator::{IndividualFunctionTranslator, TranslatorState};

verus! {

broadcast use vstd::std_specs::hash::group_hash_axioms;

/// The local of a parameter of a block.
pub open spec fn param_local(table: OperandTableView, block: Block, value: Value) -> Option<
    LocalId,
> {
    if table.block_params.contains_key(block) {
        lookup(table.block_params[block], value)
    } else {
        None
    }
}

/// The type of a value that the function defines.
pub open spec fn value_type(func: SourceFunction, value: Value) -> Option<Type> {
    match func.spec_value(value) {
        Some(data) => Some(data.ty),
        None => None,
    }
}

/// Whether an integer type is the one of 32 bits, or the one of 64. No other
/// type is supported where an integer is computed with.
pub open spec fn is_32_bits(ty: Type) -> Result<bool, TranslationError> {
    if ty.kind == TypeKind::Int && ty.bits == 32 {
        Ok(true)
    } else if ty.kind == TypeKind::Int && ty.bits == 64 {
        Ok(false)
    } else {
        Err(TranslationError::UnsupportedType(ty))
    }
}

/// The instruction that pushes an immediate as an integer of 32 bits, or of 64.
pub open spec fn const_instr(bits_32: bool, imm: i64) -> Instr {
    if bits_32 {
        Instr::I32Const(low_word(imm))
    } else {
        Instr::I64Const(imm)
    }
}

/// The operator of an addition or subtraction at 32 bits, or at 64.
pub open spec fn arith_op(opcode: Opcode, bits_32: bool) -> Option<BinaryOp> {
    match opcode {
        Opcode::Iadd => Some(if bits_32 { BinaryOp::I32Add } else { BinaryOp::I64Add }),
        Opcode::Isub => Some(if bits_32 { BinaryOp::I32Sub } else { BinaryOp::I64Sub }),
        _ => None,
    }
}

/// The operator of a comparison of two values at 32 bits, or at 64: only
/// equality and inequality have one.
pub open spec fn compare_op(cond: IntCC, bits_32: bool) -> Option<BinaryOp> {
    match cond {
        IntCC::Equal => Some(if bits_32 { BinaryOp::I32Eq } else { BinaryOp::I64Eq }),
        IntCC::NotEqual => Some(if bits_32 { BinaryOp::I32Ne } else { BinaryOp::I64Ne }),
        _ => None,
    }
}

/// What is emitted to leave a value on top of the operand stack.
///
/// - A block parameter is read from its local.
/// - A value with at most one use, or a rematerialised one, is computed in
///   place by its defining instruction; the tables change only as that
///   instruction changes them.
/// - A value with several uses is computed by its defining instruction the
///   first time, written to a fresh local of its type and read back; its
///   local is recorded, and every later time the value is read from it. The
///   lowering fails where the machine cannot count one more local.
///
/// `fuel` bounds how deep definitions may nest.
pub open spec fn lowered_value(
    func: SourceFunction,
    table: OperandTableView,
    state: TranslatorState,
    value: Value,
    fuel: nat,
) -> Emission
    decreases fuel, 2nat,
{
    let start = Emission::start(state);
    match func.spec_value(value) {
        None => start.fail(TranslationError::UnknownValue(value)),
        Some(data) => match data.def {
            ValueDef::Param(block, _) => match param_local(table, block, value) {
                Some(local) => start.emit(Instr::LocalGet(local)),
                None => start.fail(TranslationError::MissingLocal(value)),
            },
            ValueDef::Result(inst, _) => match classify(table, value) {
                Operand::SingleUse(_) => lowered_inst(func, table, state, inst, fuel),
                Operand::Rematerialise(_) => lowered_inst(func, table, state, inst, fuel),
                Operand::NormalUse(_) => if state.locals.contains_key(value) {
                    start.emit(Instr::LocalGet(state.locals[value]))
                } else {
                    let def = lowered_inst(func, table, state, inst, fuel);
                    match wasm_type(data.ty) {
                        None => def.fail(TranslationError::UnsupportedType(data.ty)),
                        Some(ty) => if !def.is_ok() {
                            def
                        } else if def.state.module_locals.len() >= usize::MAX {
                            def.fail(TranslationError::TooManyLocals)
                        } else {
                            let local = def.state.module_locals.len() as usize;
                            Emission {
                                code: def.code.push(Instr::LocalSet(local)).push(
                                    Instr::LocalGet(local),
                                ),
                                state: TranslatorState {
                                    module_locals: def.state.module_locals.push(ty),
                                    locals: def.state.locals.insert(value, local),
                                    ..def.state
                                },
                                result: Ok(()),
                            }
                        },
                    }
                },
            },
        },
    }
}

/// What is emitted for an addition or subtraction of two values: the
/// operands, then the operator at the width of the left operand.
pub open spec fn lowered_binary(
    func: SourceFunction,
    table: OperandTableView,
    state: TranslatorState,
    opcode: Opcode,
    left: Value,
    right: Value,
    fuel: nat,
) -> Emission
    decreases fuel, 3nat,
{
    let first = lowered_value(func, table, state, left, fuel);
    let both = first.join(lowered_value(func, table, first.state, right, fuel));
    match arith_op(opcode, true) {
        None => both.fail(TranslationError::UnimplementedOpcode(opcode)),
        Some(_) => match value_type(func, left) {
            None => both.fail(TranslationError::UnknownValue(left)),
            Some(ty) => match is_32_bits(ty) {
                Err(e) => both.fail(e),
                Ok(bits_32) => both.emit(Instr::Binop(arith_op(opcode, bits_32)->Some_0)),
            },
        },
    }
}

/// What is emitted for an integer constant: its immediate, at the width of
/// its result.
pub open spec fn lowered_constant(
    func: SourceFunction,
    state: TranslatorState,
    inst: Inst,
    opcode: Opcode,
    imm: i64,
) -> Emission {
    let start = Emission::start(state);
    if opcode != Opcode::Iconst {
        start.fail(TranslationError::UnimplementedOpcode(opcode))
    } else if func.insts@[inst as int].results@.len() == 0 {
        start.fail(TranslationError::MissingResult(inst))
    } else {
        let result = func.insts@[inst as int].results@[0];
        match value_type(func, result) {
            None => start.fail(TranslationError::UnknownValue(result)),
            Some(ty) => match is_32_bits(ty) {
                Err(e) => start.fail(e),
                Ok(bits_32) => start.emit(const_instr(bits_32, imm)),
            },
        }
    }
}

/// What is emitted for a comparison of two values: the operands, then the
/// test for equality or inequality at the width of the left operand.
pub open spec fn lowered_compare(
    func: SourceFunction,
    table: OperandTableView,
    state: TranslatorState,
    opcode: Opcode,
    left: Value,
    right: Value,
    cond: IntCC,
    fuel: nat,
) -> Emission
    decreases fuel, 3nat,
{
    let first = lowered_value(func, table, state, left, fuel);
    let both = first.join(lowered_value(func, table, first.state, right, fuel));
    match value_type(func, left) {
        None => both.fail(TranslationError::UnknownValue(left)),
        Some(ty) => match is_32_bits(ty) {
            Err(e) => both.fail(e),
            Ok(bits_32) => if opcode != Opcode::Icmp {
                both.fail(TranslationError::UnimplementedOpcode(opcode))
            } else {
                match compare_op(cond, bits_32) {
                    None => both.fail(TranslationError::UnimplementedCondition(cond)),
                    Some(op) => both.emit(Instr::Binop(op)),
                }
            },
        },
    }
}

/// What is emitted for a comparison of a value with an immediate: the
/// operand, the immediate at the width of the operand, then the test for
/// equality, inequality or unsigned less-or-equal.
pub open spec fn lowered_compare_imm(
    func: SourceFunction,
    table: OperandTableView,
    state: TranslatorState,
    opcode: Opcode,
    arg: Value,
    cond: IntCC,
    imm: i64,
    fuel: nat,
) -> Emission
    decreases fuel, 3nat,
{
    let start = Emission::start(state);
    match value_type(func, arg) {
        None => start.fail(TranslationError::UnknownValue(arg)),
        Some(ty) => match is_32_bits(ty) {
            Err(e) => start.fail(e),
            Ok(bits_32) => if opcode != Opcode::IcmpImm {
                start.fail(TranslationError::UnimplementedOpcode(opcode))
            } else {
                let pushed = lowered_value(func, table, state, arg, fuel).emit(
                    const_instr(bits_32, imm),
                );
                match cond_op(cond, bits_32) {
                    None => pushed.fail(TranslationError::UnimplementedCondition(cond)),
                    Some(op) => pushed.emit(Instr::Binop(op)),
                }
            },
        },
    }
}

/// What is emitted for an addition of an immediate: the operand, the
/// immediate at the width of the operand, then the addition.
pub open spec fn lowered_add_imm(
    func: SourceFunction,
    table: OperandTableView,
    state: TranslatorState,
    opcode: Opcode,
    arg: Value,
    imm: i64,
    fuel: nat,
) -> Emission
    decreases fuel, 3nat,
{
    let start = Emission::start(state);
    if opcode != Opcode::IaddImm {
        start.fail(TranslationError::UnimplementedOpcode(opcode))
    } else {
        match value_type(func, arg) {
            None => start.fail(TranslationError::UnknownValue(arg)),
            Some(ty) => match is_32_bits(ty) {
                Err(e) => start.fail(e),
                Ok(bits_32) => lowered_value(func, table, state, arg, fuel).emit(
                    const_instr(bits_32, imm),
                ).emit(Instr::Binop(arith_op(Opcode::Iadd, bits_32)->Some_0)),
            },
        }
    }
}

/// What is emitted for an instruction that does not transfer control: its
/// operands in order, then the operation on them.
///
/// Integer constants, additions and subtractions of two values, additions of
/// an immediate, and comparisons of two values or of a value with an immediate
/// have a lowering. Atomic operations are unsupported; jumps, branches and
/// returns are out of place here; every other operation is unimplemented.
///
/// With no fuel left the instruction is reported as part of a cycle of
/// definitions; its operands are lowered with one unit of fuel less.
pub open spec fn lowered_inst(
    func: SourceFunction,
    table: OperandTableView,
    state: TranslatorState,
    inst: Inst,
    fuel: nat,
) -> Emission
    decreases fuel, 1nat,
{
    let start = Emission::start(state);
    if fuel == 0 {
        start.fail(TranslationError::DefinitionCycle(inst))
    } else {
        match func.spec_inst(inst) {
            None => start.fail(TranslationError::UnknownInst(inst)),
            Some(entry) => match entry.data {
                InstructionData::AtomicCas { .. } => start.fail(
                    TranslationError::UnsupportedOnTarget(inst),
                ),
                InstructionData::AtomicRmw { .. } => start.fail(
                    TranslationError::UnsupportedOnTarget(inst),
                ),
                InstructionData::Binary { opcode, left, right } => lowered_binary(
                    func,
                    table,
                    state,
                    opcode,
                    left,
                    right,
                    spent(fuel),
                ),
                InstructionData::UnaryImm { opcode, imm } => lowered_constant(
                    func,
                    state,
                    inst,
                    opcode,
                    imm,
                ),
                InstructionData::IntCompare { opcode, left, right, cond } => lowered_compare(
                    func,
                    table,
                    state,
                    opcode,
                    left,
                    right,
                    cond,
                    spent(fuel),
                ),
                InstructionData::IntCompareImm { opcode, arg, cond, imm } => lowered_compare_imm(
                    func,
                    table,
                    state,
                    opcode,
                    arg,
                    cond,
                    imm,
                    spent(fuel),
                ),
                InstructionData::BinaryImm64 { opcode, arg, imm } => lowered_add_imm(
                    func,
                    table,
                    state,
                    opcode,
                    arg,
                    imm,
                    spent(fuel),
                ),
                InstructionData::Jump { .. } => start.fail(
                    TranslationError::MisplacedTerminator(inst),
                ),
                InstructionData::Branch { .. } => start.fail(
                    TranslationError::MisplacedTerminator(inst),
                ),
                InstructionData::MultiAry { .. } => start.fail(
                    TranslationError::MisplacedTerminator(inst),
                ),
                InstructionData::Unary { opcode, .. } => start.fail(
                    TranslationError::UnimplementedOpcode(opcode),
                ),
                InstructionData::Other { opcode, .. } => start.fail(
                    TranslationError::UnimplementedOpcode(opcode),
                ),
            },
        }
    }
}

/// The type of a value, if the function defines the value.
pub fn type_of(func: &SourceFunction, value: Value) -> (r: Option<Type>)
    ensures
        r == value_type(*func, value),
{
    match func.value(value) {
        Some(data) => Some(data.ty),
        None => None,
    }
}

/// Whether an integer type is the one of 32 bits, or the one of 64.
pub fn int_is_32_bits(ty: Type) -> (r: Result<bool, TranslationError>)
    ensures
        r == is_32_bits(ty),
{
    if ty.is_int() && ty.bits() == 32 {
        Ok(true)
    } else if ty.is_int() && ty.bits() == 64 {
        Ok(false)
    } else {
        Err(TranslationError::UnsupportedType(ty))
    }
}

/// The instruction that pushes an immediate as an integer of 32 bits, or of 64.
pub fn const_of(bits_32: bool, imm: i64) -> (r: Instr)
    ensures
        r == const_instr(bits_32, imm),
{
    if bits_32 {
        Instr::I32Const(low_word_of(imm))
    } else {
        Instr::I64Const(imm)
    }
}

fn build_binary(
    opcode: Opcode,
    left: Value,
    right: Value,
    t: &mut IndividualFunctionTranslator<'_>,
    builder: &mut Vec<Instr>,
    can_branch_to: &CanBranchTo<'_>,
    fuel: usize,
) -> (r: Result<(), TranslationError>)
    ensures
        final(t).func == old(t).func,
        final(t).operand_table == old(t).operand_table,
        final(builder)@ =~= old(builder)@ + lowered_binary(
            *old(t).func,
            old(t).operand_table@,
            old(t)@,
            opcode,
            left,
            right,
            nat_of(fuel),
        ).code,
        final(t)@ =~= lowered_binary(
            *old(t).func,
            old(t).operand_table@,
            old(t)@,
            opcode,
            left,
            right,
            nat_of(fuel),
        ).state,
        r == lowered_binary(
            *old(t).func,
            old(t).operand_table@,
            old(t)@,
            opcode,
            left,
            right,
            nat_of(fuel),
        ).result,
    decreases fuel, 3nat,
{
    let func = t.func;
    translate_value(left, t, builder, can_branch_to, fuel)?;
    translate_value(right, t, builder, can_branch_to, fuel)?;
    let add = match opcode {
        Opcode::Iadd => true,
        Opcode::Isub => false,
        _ => {
            return Err(TranslationError::UnimplementedOpcode(opcode));
        },
    };
    let ty = match type_of(func, left) {
        Some(ty) => ty,
        None => {
            return Err(TranslationError::UnknownValue(left));
        },
    };
    let bits_32 = int_is_32_bits(ty)?;
    let op = if add {
        if bits_32 {
            BinaryOp::I32Add
        } else {
            BinaryOp::I64Add
        }
    } else {
        if bits_32 {
            BinaryOp::I32Sub
        } else {
            BinaryOp::I64Sub
        }
    };
    builder.push(Instr::Binop(op));
    Ok(())
}

fn build_constant(
    inst: Inst,
    opcode: Opcode,
    imm: i64,
    t: &mut IndividualFunctionTranslator<'_>,
    builder: &mut Vec<Instr>,
) -> (r: Result<(), TranslationError>)
    requires
        old(t).func.spec_inst(inst) is Some,
    ensures
        final(t).func == old(t).func,
        final(t).operand_table == old(t).operand_table,
        final(builder)@ =~= old(builder)@ + lowered_constant(
            *old(t).func,
            old(t)@,
            inst,
            opcode,
            imm,
        ).code,
        final(t)@ =~= lowered_constant(*old(t).func, old(t)@, inst, opcode, imm).state,
        r == lowered_constant(*old(t).func, old(t)@, inst, opcode, imm).result,
{
    let func = t.func;
    if opcode != Opcode::Iconst {
        return Err(TranslationError::UnimplementedOpcode(opcode));
    }
    let results = &func.insts[inst as usize].results;
    if results.len() == 0 {
        return Err(TranslationError::MissingResult(inst));
    }
    let val = results[0];
    let ty = match type_of(func, val) {
        Some(ty) => ty,
        None => {
            return Err(TranslationError::UnknownValue(val));
        },
    };
    let bits_32 = int_is_32_bits(ty)?;
    builder.push(const_of(bits_32, imm));
    Ok(())
}

fn build_compare(
    opcode: Opcode,
    left: Value,
    right: Value,
    cond: IntCC,
    t: &mut IndividualFunctionTranslator<'_>,
    builder: &mut Vec<Instr>,
    can_branch_to: &CanBranchTo<'_>,
    fuel: usize,
) -> (r: Result<(), TranslationError>)
    ensures
        final(t).func == old(t).func,
        final(t).operand_table == old(t).operand_table,
        final(builder)@ =~= old(builder)@ + lowered_compare(
            *old(t).func,
            old(t).operand_table@,
            old(t)@,
            opcode,
            left,
            right,
            cond,
            nat_of(fuel),
        ).code,
        final(t)@ =~= lowered_compare(
            *old(t).func,
            old(t).operand_table@,
            old(t)@,
            opcode,
            left,
            right,
            cond,
            nat_of(fuel),
        ).state,
        r == lowered_compare(
            *old(t).func,
            old(t).operand_table@,
            old(t)@,
            opcode,
            left,
            right,
            cond,
            nat_of(fuel),
        ).result,
    decreases fuel, 3nat,
{
    let func = t.func;
    translate_value(left, t, builder, can_branch_to, fuel)?;
    translate_value(right, t, builder, can_branch_to, fuel)?;
    let ty = match type_of(func, left) {
        Some(ty) => ty,
        None => {
            return Err(TranslationError::UnknownValue(left));
        },
    };
    let bits_32 = int_is_32_bits(ty)?;
    if opcode != Opcode::Icmp {
        return Err(TranslationError::UnimplementedOpcode(opcode));
    }
    let op = match cond {
        IntCC::Equal => if bits_32 {
            BinaryOp::I32Eq
        } else {
            BinaryOp::I64Eq
        },
        IntCC::NotEqual => if bits_32 {
            BinaryOp::I32Ne
        } else {
            BinaryOp::I64Ne
        },
        _ => {
            return Err(TranslationError::UnimplementedCondition(cond));
        },
    };
    builder.push(Instr::Binop(op));
    Ok(())
}

fn build_compare_imm(
    opcode: Opcode,
    arg: Value,
    cond: IntCC,
    imm: i64,
    t: &mut IndividualFunctionTranslator<'_>,
    builder: &mut Vec<Instr>,
    can_branch_to: &CanBranchTo<'_>,
    fuel: usize,
) -> (r: Result<(), TranslationError>)
    ensures
        final(t).func == old(t).func,
        final(t).operand_table == old(t).operand_table,
        final(builder)@ =~= old(builder)@ + lowered_compare_imm(
            *old(t).func,
            old(t).operand_table@,
            old(t)@,
            opcode,
            arg,
            cond,
            imm,
            nat_of(fuel),
        ).code,
        final(t)@ =~= lowered_compare_imm(
            *old(t).func,
            old(t).operand_table@,
            old(t)@,
            opcode,
            arg,
            cond,
            imm,
            nat_of(fuel),
        ).state,
        r == lowered_compare_imm(
            *old(t).func,
            old(t).operand_table@,
            old(t)@,
            opcode,
            arg,
            cond,
            imm,
            nat_of(fuel),
        ).result,
    decreases fuel, 3nat,
{
    let func = t.func;
    let ty = match type_of(func, arg) {
        Some(ty) => ty,
        None => {
            return Err(TranslationError::UnknownValue(arg));
        },
    };
    let bits_32 = int_is_32_bits(ty)?;
    if opcode != Opcode::IcmpImm {
        return Err(TranslationError::UnimplementedOpcode(opcode));
    }
    translate_value(arg, t, builder, can_branch_to, fuel)?;
    builder.push(const_of(bits_32, imm));
    let op = wasm_of_cond(cond, bits_32)?;
    builder.push(Instr::Binop(op));
    Ok(())
}

fn build_add_imm(
    opcode: Opcode,
    arg: Value,
    imm: i64,
    t: &mut IndividualFunctionTranslator<'_>,
    builder: &mut Vec<Instr>,
    can_branch_to: &CanBranchTo<'_>,
    fuel: usize,
) -> (r: Result<(), TranslationError>)
    ensures
        final(t).func == old(t).func,
        final(t).operand_table == old(t).operand_table,
        final(builder)@ =~= old(builder)@ + lowered_add_imm(
            *old(t).func,
            old(t).operand_table@,
            old(t)@,
            opcode,
            arg,
            imm,
            nat_of(fuel),
        ).code,
        final(t)@ =~= lowered_add_imm(
            *old(t).func,
            old(t).operand_table@,
            old(t)@,
            opcode,
            arg,
            imm,
            nat_of(fuel),
        ).state,
        r == lowered_add_imm(
            *old(t).func,
            old(t).operand_table@,
            old(t)@,
            opcode,
            arg,
            imm,
            nat_of(fuel),
        ).result,
    decreases fuel, 3nat,
{
    let func = t.func;
    if opcode != Opcode::IaddImm {
        return Err(TranslationError::UnimplementedOpcode(opcode));
    }
    let ty = match type_of(func, arg) {
        Some(ty) => ty,
        None => {
            return Err(TranslationError::UnknownValue(arg));
        },
    };
    let bits_32 = int_is_32_bits(ty)?;
    translate_value(arg, t, builder, can_branch_to, fuel)?;
    builder.push(const_of(bits_32, imm));
    builder.push(Instr::Binop(if bits_32 { BinaryOp::I32Add } else { BinaryOp::I64Add }));
    Ok(())
}

/// Converts an instruction that does not transfer control into the
/// corresponding target instructions, which are appended to `builder`.
///
/// What is appended, how the tables change and whether the lowering succeeds
/// is given by [`lowered_inst`]. `fuel` bounds how deep the definitions of the
/// operands may nest: the number of instructions of the function is enough
/// for every function whose definitions form no cycle.
pub fn build_wasm_inst(
    inst: Inst,
    t: &mut IndividualFunctionTranslator<'_>,
    builder: &mut Vec<Instr>,
    can_branch_to: &CanBranchTo<'_>,
    fuel: usize,
) -> (r: Result<(), TranslationError>)
    ensures
        final(t).func == old(t).func,
        final(t).operand_table == old(t).operand_table,
        final(builder)@ =~= old(builder)@ + lowered_inst(
            *old(t).func,
            old(t).operand_table@,
            old(t)@,
            inst,
            nat_of(fuel),
        ).code,
        final(t)@ =~= lowered_inst(
            *old(t).func,
            old(t).operand_table@,
            old(t)@,
            inst,
            nat_of(fuel),
        ).state,
        r == lowered_inst(*old(t).func, old(t).operand_table@, old(t)@, inst, nat_of(fuel)).result,
    decreases fuel, 1nat,
{
    if fuel == 0 {
        return Err(TranslationError::DefinitionCycle(inst));
    }
    let func = t.func;
    let entry = match func.inst(inst) {
        Some(entry) => entry,
        None => {
            return Err(TranslationError::UnknownInst(inst));
        },
    };
    match &entry.data {
        InstructionData::AtomicCas { .. } => Err(TranslationError::UnsupportedOnTarget(inst)),
        InstructionData::AtomicRmw { .. } => Err(TranslationError::UnsupportedOnTarget(inst)),
        InstructionData::Binary { opcode, left, right } => build_binary(
            *opcode,
            *left,
            *right,
            t,
            builder,
            can_branch_to,
            fuel - 1,
        ),
        InstructionData::UnaryImm { opcode, imm } => build_constant(inst, *opcode, *imm, t, builder),
        InstructionData::IntCompare { opcode, left, right, cond } => build_compare(
            *opcode,
            *left,
            *right,
            *cond,
            t,
            builder,
            can_branch_to,
            fuel - 1,
        ),
        InstructionData::IntCompareImm { opcode, arg, cond, imm } => build_compare_imm(
            *opcode,
            *arg,
            *cond,
            *imm,
            t,
            builder,
            can_branch_to,
            fuel - 1,
        ),
        InstructionData::BinaryImm64 { opcode, arg, imm } => build_add_imm(
            *opcode,
            *arg,
            *imm,
            t,
            builder,
            can_branch_to,
            fuel - 1,
        ),
        InstructionData::Jump { .. } => Err(TranslationError::MisplacedTerminator(inst)),
        InstructionData::Branch { .. } => Err(TranslationError::MisplacedTerminator(inst)),
        InstructionData::MultiAry { .. } => Err(TranslationError::MisplacedTerminator(inst)),
        InstructionData::Unary { opcode, .. } => Err(TranslationError::UnimplementedOpcode(*opcode)),
        InstructionData::Other { opcode, .. } => Err(TranslationError::UnimplementedOpcode(*opcode)),
    }
}

/// Leaves the value of an operand on top of the operand stack, by the
/// instructions that it appends to `builder`.
///
/// What is appended, how the tables change and whether the lowering succeeds
/// is given by [`lowered_value`].
pub fn translate_value(
    operand: Value,
    t: &mut IndividualFunctionTranslator<'_>,
    builder: &mut Vec<Instr>,
    can_branch_to: &CanBranchTo<'_>,
    fuel: usize,
) -> (r: Result<(), TranslationError>)
    ensures
        final(t).func == old(t).func,
        final(t).operand_table == old(t).operand_table,
        final(builder)@ =~= old(builder)@ + lowered_value(
            *old(t).func,
            old(t).operand_table@,
            old(t)@,
            operand,
            nat_of(fuel),
        ).code,
        final(t)@ =~= lowered_value(
            *old(t).func,
            old(t).operand_table@,
            old(t)@,
            operand,
            nat_of(fuel),
        ).state,
        r == lowered_value(
            *old(t).func,
            old(t).operand_table@,
            old(t)@,
            operand,
            nat_of(fuel),
        ).result,
    decreases fuel, 2nat,
{
    let func = t.func;
    let table = t.operand_table;
    let data = match func.value(operand) {
        Some(data) => data,
        None => {
            return Err(TranslationError::UnknownValue(operand));
        },
    };
    match data.def {
        ValueDef::Param(block, _) => {
            let local = match table.block_params.get(&block) {
                Some(params) => find(params, operand),
                None => None,
            };
            match local {
                Some(local) => {
                    builder.push(Instr::LocalGet(local));
                    Ok(())
                },
                None => Err(TranslationError::MissingLocal(operand)),
            }
        },
        ValueDef::Result(inst, _) => match Operand::from_table(operand, table) {
            Operand::SingleUse(_) => build_wasm_inst(inst, t, builder, can_branch_to, fuel),
            Operand::Rematerialise(_) => build_wasm_inst(inst, t, builder, can_branch_to, fuel),
            Operand::NormalUse(_) => {
                let known = match t.locals.get(&operand) {
                    Some(local) => Some(*local),
                    None => None,
                };
                match known {
                    Some(local) => {
                        builder.push(Instr::LocalGet(local));
                        Ok(())
                    },
                    None => {
                        build_wasm_inst(inst, t, builder, can_branch_to, fuel)?;
                        let ty = wasm_of_cranelift(data.ty)?;
                        if t.module_locals.len() == usize::MAX {
                            return Err(TranslationError::TooManyLocals);
                        }
                        let arg = t.module_locals.add(ty);
                        t.locals.insert(operand, arg);
                        builder.push(Instr::LocalSet(arg));
                        builder.push(Instr::LocalGet(arg));
                        Ok(())
                    },
                }
            },
        },
    }
}

} // verus!
