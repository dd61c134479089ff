//! What holds of every translation: how the locals of values, of block
//! parameters and of selectors are written and read.

use vstd::prelude::*;

use crate::assoc::lookup;
use crate::conversions::block::{
    branch_realisation, emit_all, jump_realisation, lowered_block, lowered_block_from,
    lowered_branch, lowered_branch_head, lowered_edge, lowered_edge_to, lowered_jump,
    lowered_operands, normalise, skip_selector, BranchInstr, CanBranchToView,
};
use crate::conversions::inst::{const_instr, is_32_bits, lowered_inst, lowered_value, value_type};
use crate::emission::{spent, Emission};
use crate::ir::{Block, Inst, InstructionData, Opcode, SourceFunction, Value, ValueDef};
use crate::optable::{
    block_param_locals, classify, layout_params, lemma_value_types_ok, operand_table, Operand,
    OperandTableView,
};
use crate::shape::{shape_has_next, HandledView, ShapeView};
use crate::target::{Instr, LocalId, ValType};
use crate::translator::{
    arm_guard, dispatch_entries, immediate_selector, initial_state, lowered_arm, lowered_arms,
    lowered_next, lowered_shape, lowering, param_locals, shaped_translation, TranslatorState,
};

verus! {

/// How often a list of instructions writes a local.
pub open spec fn set_count(code: Seq<Instr>, local: LocalId) -> nat
    decreases code.len(),
{
    if code.len() == 0 {
        0
    } else {
        set_count(code.drop_last(), local) + if code.last() == Instr::LocalSet(local) {
            1nat
        } else {
            0nat
        }
    }
}

/// How often a list of instructions reads a local.
pub open spec fn get_count(code: Seq<Instr>, local: LocalId) -> nat
    decreases code.len(),
{
    if code.len() == 0 {
        0
    } else {
        get_count(code.drop_last(), local) + if code.last() == Instr::LocalGet(local) {
            1nat
        } else {
            0nat
        }
    }
}

/// What two lists write and read, their concatenation writes and reads.
pub proof fn lemma_count_concat(a: Seq<Instr>, b: Seq<Instr>, local: LocalId)
    ensures
        set_count(a + b, local) == set_count(a, local) + set_count(b, local),
        get_count(a + b, local) == get_count(a, local) + get_count(b, local),
    decreases b.len(),
{
    if b.len() == 0 {
        assert(a + b == a);
    } else {
        assert((a + b).drop_last() == a + b.drop_last());
        lemma_count_concat(a, b.drop_last(), local);
    }
}

/// What a list with one more instruction writes and reads.
pub proof fn lemma_count_push(a: Seq<Instr>, instr: Instr, local: LocalId)
    ensures
        set_count(a.push(instr), local) == set_count(a, local) + if instr == Instr::LocalSet(
            local,
        ) {
            1nat
        } else {
            0nat
        },
        get_count(a.push(instr), local) == get_count(a, local) + if instr == Instr::LocalGet(
            local,
        ) {
            1nat
        } else {
            0nat
        },
{
    assert(a.push(instr).drop_last() == a);
}

/// Are the tables in order with respect to the locals of `fixed`, which are
/// those of block parameters and of selectors? The local of every value is
/// allocated and is none of these, and these are allocated.
pub open spec fn settled(state: TranslatorState, fixed: Set<LocalId>) -> bool {
    &&& state.module_locals.len() <= usize::MAX
    &&& forall|v: Value| #[trigger]
        state.locals.contains_key(v) ==> state.locals[v] < state.module_locals.len()
            && !fixed.contains(state.locals[v])
    &&& forall|l: LocalId| #[trigger] fixed.contains(l) ==> l < state.module_locals.len()
}

/// Does a lowering step treat the locals with care? From the tables `before`
/// it,
///
/// - locals are only added, never more than the machine can count, and the
///   values that had a local keep it;
/// - every local that is written is allocated afterwards;
/// - of the locals that were allocated before, only those of `fixed` are
///   written;
/// - a value that gets its local in the step gets a fresh one, which the
///   step writes once and reads at least once.
pub open spec fn tidy(before: TranslatorState, step: Emission, fixed: Set<LocalId>) -> bool {
    let after = step.state;
    &&& before.module_locals.len() <= after.module_locals.len()
    &&& before.module_locals.len() <= usize::MAX ==> after.module_locals.len() <= usize::MAX
    &&& forall|v: Value| #[trigger]
        before.locals.contains_key(v) ==> after.locals.contains_key(v) && after.locals[v]
            == before.locals[v]
    &&& forall|l: LocalId|
        set_count(step.code, l) > 0 ==> l < after.module_locals.len()
    &&& forall|l: LocalId|
        l < before.module_locals.len() && set_count(step.code, l) > 0 ==> fixed.contains(l)
    &&& forall|v: Value| #[trigger]
        after.locals.contains_key(v) && !before.locals.contains_key(v) ==> {
            &&& after.locals[v] >= before.module_locals.len()
            &&& after.locals[v] < after.module_locals.len()
            &&& set_count(step.code, after.locals[v]) == 1
            &&& get_count(step.code, after.locals[v]) >= 1
        }
}

/// The step that emits nothing is tidy.
pub proof fn lemma_tidy_start(state: TranslatorState, fixed: Set<LocalId>)
    ensures
        tidy(state, Emission::start(state), fixed),
{
}

/// An instruction that writes no local, or one of `fixed`, leaves a step
/// tidy.
pub proof fn lemma_tidy_emit(
    before: TranslatorState,
    step: Emission,
    fixed: Set<LocalId>,
    instr: Instr,
)
    requires
        settled(before, fixed),
        tidy(before, step, fixed),
        match instr {
            Instr::LocalSet(l) => fixed.contains(l),
            _ => true,
        },
    ensures
        tidy(before, step.emit(instr), fixed),
{
    if step.is_ok() {
        let after = step.state;
        assert forall|l: LocalId| set_count(step.code.push(instr), l) > 0 implies l
            < after.module_locals.len() by {
            lemma_count_push(step.code, instr, l);
        }
        assert forall|l: LocalId|
            l < before.module_locals.len() && set_count(step.code.push(instr), l)
                > 0 implies fixed.contains(l) by {
            lemma_count_push(step.code, instr, l);
        }
        assert forall|v: Value| #[trigger]
            after.locals.contains_key(v) && !before.locals.contains_key(v) implies {
            &&& set_count(step.code.push(instr), after.locals[v]) == 1
            &&& get_count(step.code.push(instr), after.locals[v]) >= 1
        } by {
            lemma_count_push(step.code, instr, after.locals[v]);
        }
    }
}

/// Two tidy steps in a row are a tidy step. The second may write locals of
/// its own that were allocated since the first began.
pub proof fn lemma_tidy_join(
    before: TranslatorState,
    first: Emission,
    second: Emission,
    fixed: Set<LocalId>,
    wider: Set<LocalId>,
)
    requires
        tidy(before, first, fixed),
        settled(first.state, wider),
        tidy(first.state, second, wider),
        forall|l: LocalId| #[trigger]
            wider.contains(l) ==> fixed.contains(l) || l >= before.module_locals.len(),
    ensures
        tidy(before, first.join(second), fixed),
{
    if first.is_ok() {
        let middle = first.state;
        let after = second.state;
        let code = first.code + second.code;
        assert forall|l: LocalId| set_count(code, l) > 0 implies l
            < after.module_locals.len() by {
            lemma_count_concat(first.code, second.code, l);
        }
        assert forall|l: LocalId|
            l < before.module_locals.len() && set_count(code, l) > 0 implies fixed.contains(
            l,
        ) by {
            lemma_count_concat(first.code, second.code, l);
            if set_count(second.code, l) > 0 {
                assert(wider.contains(l));
            }
        }
        assert forall|v: Value| #[trigger]
            after.locals.contains_key(v) && !before.locals.contains_key(v) implies {
            &&& after.locals[v] >= before.module_locals.len()
            &&& after.locals[v] < after.module_locals.len()
            &&& set_count(code, after.locals[v]) == 1
            &&& get_count(code, after.locals[v]) >= 1
        } by {
            let l = after.locals[v];
            lemma_count_concat(first.code, second.code, l);
            if middle.locals.contains_key(v) {
                assert(middle.locals[v] == l);
                assert(!wider.contains(l));
                if set_count(second.code, l) > 0 {
                    assert(wider.contains(l));
                }
            } else {
                if set_count(first.code, l) > 0 {
                    assert(l < middle.module_locals.len());
                }
            }
        }
        assert forall|v: Value| #[trigger] before.locals.contains_key(v) implies after.locals.contains_key(
            v,
        ) && after.locals[v] == before.locals[v] by {
            assert(middle.locals.contains_key(v));
        }
    }
}

/// After a tidy step the tables are in order, if they were before.
pub proof fn lemma_tidy_settled(before: TranslatorState, step: Emission, fixed: Set<LocalId>)
    requires
        settled(before, fixed),
        tidy(before, step, fixed),
    ensures
        settled(step.state, fixed),
{
    let after = step.state;
    assert forall|v: Value| #[trigger] after.locals.contains_key(v) implies after.locals[v]
        < after.module_locals.len() && !fixed.contains(after.locals[v]) by {
        if before.locals.contains_key(v) {
            assert(after.locals[v] == before.locals[v]);
        }
    }
}

/// An instruction that writes no local, and a failure, leave a step tidy.
pub proof fn lemma_tidy_tail(before: TranslatorState, step: Emission, fixed: Set<LocalId>)
    requires
        settled(before, fixed),
        tidy(before, step, fixed),
    ensures
        forall|instr: Instr|
            !(instr is LocalSet) ==> #[trigger] tidy(before, step.emit(instr), fixed),
        forall|error: crate::error::TranslationError| #[trigger]
            tidy(before, step.fail(error), fixed),
{
    assert forall|instr: Instr| !(instr is LocalSet) implies #[trigger] tidy(
        before,
        step.emit(instr),
        fixed,
    ) by {
        lemma_tidy_emit(before, step, fixed, instr);
    }
}

/// Instructions of which each writes no local, or one of `fixed`, leave a
/// step tidy.
pub proof fn lemma_tidy_emit_all(
    before: TranslatorState,
    step: Emission,
    fixed: Set<LocalId>,
    code: Seq<Instr>,
)
    requires
        settled(before, fixed),
        tidy(before, step, fixed),
        forall|i: int|
            0 <= i < code.len() ==> match #[trigger] code[i] {
                Instr::LocalSet(l) => fixed.contains(l),
                _ => true,
            },
    ensures
        tidy(before, emit_all(step, code), fixed),
    decreases code.len(),
{
    if code.len() == 0 {
        assert(step.code + code == step.code);
    } else {
        lemma_tidy_emit_all(before, step, fixed, code.drop_last());
        let most = emit_all(step, code.drop_last());
        assert(code.drop_last().push(code.last()) == code);
        assert(step.code + code == (step.code + code.drop_last()).push(code.last()));
        assert(match code[code.len() - 1] {
            Instr::LocalSet(l) => fixed.contains(l),
            _ => true,
        });
        lemma_tidy_emit(before, most, fixed, code.last());
        assert(emit_all(step, code) == most.emit(code.last()));
    }
}

/// The lowering of a value is tidy: it writes no local but the fresh one
/// that it may bind the value to.
pub proof fn lemma_value_tidy(
    func: SourceFunction,
    table: OperandTableView,
    state: TranslatorState,
    value: Value,
    fuel: nat,
    fixed: Set<LocalId>,
)
    requires
        settled(state, fixed),
    ensures
        tidy(state, lowered_value(func, table, state, value, fuel), fixed),
    decreases fuel, 2nat,
{
    let start = Emission::start(state);
    lemma_tidy_start(state, fixed);
    lemma_tidy_tail(state, start, fixed);
    match func.spec_value(value) {
        None => {},
        Some(data) => match data.def {
            ValueDef::Param(block, _) => {},
            ValueDef::Result(inst, _) => match classify(table, value) {
                Operand::SingleUse(_) => {
                    lemma_inst_tidy(func, table, state, inst, fuel, fixed);
                },
                Operand::Rematerialise(_) => {
                    lemma_inst_tidy(func, table, state, inst, fuel, fixed);
                },
                Operand::NormalUse(_) => {
                    if !state.locals.contains_key(value) {
                        lemma_inst_tidy(func, table, state, inst, fuel, fixed);
                        let def = lowered_inst(func, table, state, inst, fuel);
                        lemma_tidy_tail(state, def, fixed);
                        let out = lowered_value(func, table, state, value, fuel);
                        lemma_tidy_settled(state, def, fixed);
                        if crate::conversions::ty::wasm_type(data.ty) is Some && def.is_ok()
                            && def.state.module_locals.len() < usize::MAX {
                            let local = def.state.module_locals.len() as usize;
                            let set = def.code.push(Instr::LocalSet(local));
                            assert(out.code == set.push(Instr::LocalGet(local)));
                            assert forall|l: LocalId| set_count(out.code, l) > 0 implies l
                                < out.state.module_locals.len() by {
                                lemma_count_push(def.code, Instr::LocalSet(local), l);
                                lemma_count_push(set, Instr::LocalGet(local), l);
                            }
                            assert forall|l: LocalId|
                                l < state.module_locals.len() && set_count(out.code, l)
                                    > 0 implies fixed.contains(l) by {
                                lemma_count_push(def.code, Instr::LocalSet(local), l);
                                lemma_count_push(set, Instr::LocalGet(local), l);
                            }
                            assert forall|v: Value| #[trigger]
                                out.state.locals.contains_key(v) && !state.locals.contains_key(
                                    v,
                                ) implies {
                                &&& out.state.locals[v] >= state.module_locals.len()
                                &&& out.state.locals[v] < out.state.module_locals.len()
                                &&& set_count(out.code, out.state.locals[v]) == 1
                                &&& get_count(out.code, out.state.locals[v]) >= 1
                            } by {
                                let l = out.state.locals[v];
                                lemma_count_push(def.code, Instr::LocalSet(local), l);
                                lemma_count_push(set, Instr::LocalGet(local), l);
                                if v == value {
                                    if set_count(def.code, l) > 0 {
                                        assert(l < def.state.module_locals.len());
                                    }
                                } else {
                                    assert(def.state.locals.contains_key(v));
                                }
                            }
                        }
                    }
                },
            },
        },
    }
}

/// The lowering of an instruction is tidy.
pub proof fn lemma_inst_tidy(
    func: SourceFunction,
    table: OperandTableView,
    state: TranslatorState,
    inst: Inst,
    fuel: nat,
    fixed: Set<LocalId>,
)
    requires
        settled(state, fixed),
    ensures
        tidy(state, lowered_inst(func, table, state, inst, fuel), fixed),
    decreases fuel, 1nat,
{
    let start = Emission::start(state);
    lemma_tidy_start(state, fixed);
    lemma_tidy_tail(state, start, fixed);
    if fuel > 0 {
        match func.spec_inst(inst) {
            None => {},
            Some(entry) => match entry.data {
                InstructionData::Binary { opcode, left, right } => {
                    lemma_pair_tidy(func, table, state, left, right, spent(fuel), fixed);
                },
                InstructionData::IntCompare { opcode, left, right, cond } => {
                    lemma_pair_tidy(func, table, state, left, right, spent(fuel), fixed);
                },
                InstructionData::IntCompareImm { opcode, arg, cond, imm } => {
                    lemma_value_tidy(func, table, state, arg, spent(fuel), fixed);
                    let pushed = lowered_value(func, table, state, arg, spent(fuel));
                    lemma_tidy_tail(state, pushed, fixed);
                    lemma_tidy_tail(state, pushed.emit(const_instr(true, imm)), fixed);
                    lemma_tidy_tail(state, pushed.emit(const_instr(false, imm)), fixed);
                },
                InstructionData::BinaryImm64 { opcode, arg, imm } => {
                    lemma_value_tidy(func, table, state, arg, spent(fuel), fixed);
                    let pushed = lowered_value(func, table, state, arg, spent(fuel));
                    lemma_tidy_tail(state, pushed, fixed);
                    lemma_tidy_tail(state, pushed.emit(const_instr(true, imm)), fixed);
                    lemma_tidy_tail(state, pushed.emit(const_instr(false, imm)), fixed);
                },
                _ => {},
            },
        }
    }
}

/// The lowering of two operands in a row, followed by an instruction that
/// writes no local or by a failure, is tidy.
pub proof fn lemma_pair_tidy(
    func: SourceFunction,
    table: OperandTableView,
    state: TranslatorState,
    left: Value,
    right: Value,
    fuel: nat,
    fixed: Set<LocalId>,
)
    requires
        settled(state, fixed),
    ensures
        ({
            let first = lowered_value(func, table, state, left, fuel);
            let both = first.join(lowered_value(func, table, first.state, right, fuel));
            &&& tidy(state, both, fixed)
            &&& forall|instr: Instr|
                !(instr is LocalSet) ==> #[trigger] tidy(state, both.emit(instr), fixed)
            &&& forall|error: crate::error::TranslationError| #[trigger]
                tidy(state, both.fail(error), fixed)
        }),
    decreases fuel, 3nat,
{
    let first = lowered_value(func, table, state, left, fuel);
    lemma_value_tidy(func, table, state, left, fuel, fixed);
    lemma_tidy_settled(state, first, fixed);
    let second = lowered_value(func, table, first.state, right, fuel);
    lemma_value_tidy(func, table, first.state, right, fuel, fixed);
    lemma_tidy_join(state, first, second, fixed, fixed);
    lemma_tidy_tail(state, first.join(second), fixed);
}

/// Are the locals of all block parameters among those of `fixed`?
pub open spec fn params_fixed(table: OperandTableView, fixed: Set<LocalId>) -> bool {
    forall|block: Block, i: int|
        table.block_params.contains_key(block) && 0 <= i < table.block_params[block].len()
            ==> fixed.contains((#[trigger] table.block_params[block][i]).1)
}

/// Are the dispatch locals that a block writes among those of `fixed`?
pub open spec fn dispatch_fixed(cbt: CanBranchToView, fixed: Set<LocalId>) -> bool {
    forall|i: int|
        0 <= i < cbt.locally_computed.len() ==> match (#[trigger] cbt.locally_computed[i]).1 {
            BranchInstr::SetLocal(local) => fixed.contains(local),
        }
}

/// What is found in a list of entries is the value of one of them.
pub proof fn lemma_lookup_member<V>(pairs: Seq<(u32, V)>, key: u32)
    requires
        lookup(pairs, key) is Some,
    ensures
        exists|i: int| 0 <= i < pairs.len() && (#[trigger] pairs[i]).1 == lookup(pairs, key)->Some_0,
    decreases pairs.len(),
{
    if pairs.len() > 0 {
        if lookup(pairs.drop_last(), key) is Some {
            lemma_lookup_member(pairs.drop_last(), key);
            let i = choose|i: int|
                0 <= i < pairs.drop_last().len() && (#[trigger] pairs.drop_last()[i]).1 == lookup(
                    pairs.drop_last(),
                    key,
                )->Some_0;
            assert(pairs[i].1 == lookup(pairs, key)->Some_0);
        } else {
            assert(pairs[pairs.len() - 1].1 == lookup(pairs, key)->Some_0);
        }
    }
}

/// The lowering of a list of operands is tidy.
pub proof fn lemma_operands_tidy(
    func: SourceFunction,
    table: OperandTableView,
    state: TranslatorState,
    args: Seq<Value>,
    fuel: nat,
    fixed: Set<LocalId>,
)
    requires
        settled(state, fixed),
    ensures
        tidy(state, lowered_operands(func, table, state, args, fuel), fixed),
    decreases args.len(),
{
    if args.len() == 0 {
        lemma_tidy_start(state, fixed);
    } else {
        lemma_operands_tidy(func, table, state, args.drop_last(), fuel, fixed);
        let before = lowered_operands(func, table, state, args.drop_last(), fuel);
        lemma_tidy_settled(state, before, fixed);
        lemma_value_tidy(func, table, before.state, args.last(), fuel, fixed);
        lemma_tidy_join(
            state,
            before,
            lowered_value(func, table, before.state, args.last(), fuel),
            fixed,
            fixed,
        );
    }
}

/// The lowering of the arguments of an edge is tidy.
pub proof fn lemma_edge_tidy(
    func: SourceFunction,
    table: OperandTableView,
    state: TranslatorState,
    args: Seq<Value>,
    params: Seq<(Value, LocalId)>,
    fuel: nat,
    fixed: Set<LocalId>,
)
    requires
        settled(state, fixed),
        forall|i: int| 0 <= i < params.len() ==> fixed.contains((#[trigger] params[i]).1),
    ensures
        tidy(state, lowered_edge(func, table, state, args, params, fuel), fixed),
    decreases args.len(),
{
    if args.len() == 0 || params.len() == 0 {
        lemma_tidy_start(state, fixed);
    } else {
        assert forall|i: int| 0 <= i < params.drop_last().len() implies fixed.contains(
            (#[trigger] params.drop_last()[i]).1,
        ) by {
            assert(params.drop_last()[i] == params[i]);
        }
        lemma_edge_tidy(func, table, state, args.drop_last(), params.drop_last(), fuel, fixed);
        let before = lowered_edge(func, table, state, args.drop_last(), params.drop_last(), fuel);
        lemma_tidy_settled(state, before, fixed);
        lemma_value_tidy(func, table, before.state, args.last(), fuel, fixed);
        let joined = before.join(lowered_value(func, table, before.state, args.last(), fuel));
        lemma_tidy_join(
            state,
            before,
            lowered_value(func, table, before.state, args.last(), fuel),
            fixed,
            fixed,
        );
        assert(fixed.contains(params[params.len() - 1].1));
        lemma_tidy_emit(state, joined, fixed, Instr::LocalSet(params.last().1));
    }
}

/// The lowering of the arguments of an edge to a destination is tidy.
pub proof fn lemma_edge_to_tidy(
    func: SourceFunction,
    table: OperandTableView,
    state: TranslatorState,
    inst: Inst,
    args: Seq<Value>,
    destination: Block,
    fuel: nat,
    fixed: Set<LocalId>,
)
    requires
        settled(state, fixed),
        params_fixed(table, fixed),
    ensures
        tidy(state, lowered_edge_to(func, table, state, inst, args, destination, fuel), fixed),
{
    lemma_tidy_start(state, fixed);
    lemma_tidy_tail(state, Emission::start(state), fixed);
    if table.block_params.contains_key(destination) {
        lemma_edge_tidy(func, table, state, args, table.block_params[destination], fuel, fixed);
    }
}

/// The instructions that choose an arm write a dispatch local.
proof fn lemma_dispatch_code(cbt: CanBranchToView, destination: Block, fixed: Set<LocalId>)
    requires
        dispatch_fixed(cbt, fixed),
    ensures
        forall|i: int|
            0 <= i < skip_selector(cbt).len() ==> match #[trigger] skip_selector(cbt)[i] {
                Instr::LocalSet(l) => fixed.contains(l),
                _ => true,
            },
        match lookup(cbt.locally_computed, destination) {
            Some(BranchInstr::SetLocal(local)) => fixed.contains(local),
            None => true,
        },
{
    if cbt.locally_computed.len() > 0 {
        assert(match cbt.locally_computed[0].1 {
            BranchInstr::SetLocal(local) => fixed.contains(local),
        });
    }
    if lookup(cbt.locally_computed, destination) is Some {
        lemma_lookup_member(cbt.locally_computed, destination);
    }
}

/// The lowering of a jump is tidy.
pub proof fn lemma_jump_tidy(
    func: SourceFunction,
    table: OperandTableView,
    state: TranslatorState,
    cbt: CanBranchToView,
    inst: Inst,
    args: Seq<Value>,
    destination: Block,
    fuel: nat,
    fixed: Set<LocalId>,
)
    requires
        settled(state, fixed),
        params_fixed(table, fixed),
        dispatch_fixed(cbt, fixed),
    ensures
        tidy(state, lowered_jump(func, table, state, cbt, inst, args, destination, fuel), fixed),
{
    lemma_edge_to_tidy(func, table, state, inst, args, destination, fuel, fixed);
    let edge = lowered_edge_to(func, table, state, inst, args, destination, fuel);
    lemma_tidy_tail(state, edge, fixed);
    lemma_dispatch_code(cbt, destination, fixed);
    match jump_realisation(cbt, edge.state.loop_to_block, destination) {
        Ok(code) => {
            lemma_tidy_emit_all(state, edge, fixed, code);
        },
        Err(_) => {},
    }
}

/// What a conditional branch emits before it transfers control is tidy.
pub proof fn lemma_branch_head_tidy(
    func: SourceFunction,
    table: OperandTableView,
    state: TranslatorState,
    inst: Inst,
    opcode: Opcode,
    args: Seq<Value>,
    destination: Block,
    fuel: nat,
    fixed: Set<LocalId>,
)
    requires
        settled(state, fixed),
        params_fixed(table, fixed),
    ensures
        tidy(
            state,
            lowered_branch_head(func, table, state, inst, opcode, args, destination, fuel),
            fixed,
        ),
{
    lemma_tidy_start(state, fixed);
    lemma_tidy_tail(state, Emission::start(state), fixed);
    if (opcode == Opcode::Brz || opcode == Opcode::Brnz) && args.len() > 0 {
        lemma_edge_to_tidy(func, table, state, inst, args.skip(1), destination, fuel, fixed);
        let edge = lowered_edge_to(func, table, state, inst, args.skip(1), destination, fuel);
        lemma_tidy_settled(state, edge, fixed);
        lemma_value_tidy(func, table, edge.state, args[0], fuel, fixed);
        let cond = edge.join(lowered_value(func, table, edge.state, args[0], fuel));
        lemma_tidy_join(
            state,
            edge,
            lowered_value(func, table, edge.state, args[0], fuel),
            fixed,
            fixed,
        );
        lemma_tidy_tail(state, cond, fixed);
        match value_type(func, args[0]) {
            None => {},
            Some(ty) => match normalise(ty, opcode == Opcode::Brz) {
                Err(_) => {},
                Ok(code) => {
                    lemma_tidy_emit_all(state, cond, fixed, code);
                },
            },
        }
    }
}

/// The lowering of a conditional branch and of what follows it is tidy.
pub proof fn lemma_branch_tidy(
    func: SourceFunction,
    table: OperandTableView,
    state: TranslatorState,
    cbt: CanBranchToView,
    insts: Seq<Inst>,
    pos: nat,
    opcode: Opcode,
    args: Seq<Value>,
    destination: Block,
    fuel: nat,
    fixed: Set<LocalId>,
)
    requires
        settled(state, fixed),
        params_fixed(table, fixed),
        dispatch_fixed(cbt, fixed),
    ensures
        tidy(
            state,
            lowered_branch(func, table, state, cbt, insts, pos, opcode, args, destination, fuel),
            fixed,
        ),
    decreases insts.len() - pos, 0nat,
{
    if pos >= insts.len() {
        lemma_tidy_start(state, fixed);
    } else {
        let head = lowered_branch_head(
            func,
            table,
            state,
            insts[pos as int],
            opcode,
            args,
            destination,
            fuel,
        );
        lemma_branch_head_tidy(
            func,
            table,
            state,
            insts[pos as int],
            opcode,
            args,
            destination,
            fuel,
            fixed,
        );
        lemma_tidy_settled(state, head, fixed);
        lemma_tidy_tail(state, head, fixed);
        let rest = lowered_block_from(func, table, head.state, cbt, insts, pos + 1, fuel);
        lemma_block_from_tidy(func, table, head.state, cbt, insts, pos + 1, fuel, fixed);
        lemma_dispatch_code(cbt, destination, fixed);
        match branch_realisation(cbt, head.state.loop_to_block, destination) {
            Err(_) => {},
            Ok((guard, code)) => {
                if guard {
                    let opened = head.emit(Instr::If);
                    lemma_tidy_emit_all(state, opened, fixed, code);
                    let arm = emit_all(opened, code);
                    lemma_tidy_tail(state, arm, fixed);
                    let turned = arm.emit(Instr::Else);
                    lemma_tidy_join(state, turned, rest, fixed, fixed);
                    lemma_tidy_tail(state, turned.join(rest), fixed);
                } else {
                    lemma_tidy_emit_all(state, head, fixed, code);
                    let branched = emit_all(head, code);
                    lemma_tidy_join(state, branched, rest, fixed, fixed);
                }
            },
        }
    }
}

/// The lowering of the instructions of a block from a position on is tidy.
pub proof fn lemma_block_from_tidy(
    func: SourceFunction,
    table: OperandTableView,
    state: TranslatorState,
    cbt: CanBranchToView,
    insts: Seq<Inst>,
    pos: nat,
    fuel: nat,
    fixed: Set<LocalId>,
)
    requires
        settled(state, fixed),
        params_fixed(table, fixed),
        dispatch_fixed(cbt, fixed),
    ensures
        tidy(state, lowered_block_from(func, table, state, cbt, insts, pos, fuel), fixed),
    decreases insts.len() - pos, 1nat,
{
    lemma_tidy_start(state, fixed);
    lemma_tidy_tail(state, Emission::start(state), fixed);
    if pos < insts.len() {
        let inst = insts[pos as int];
        match func.spec_inst(inst) {
            None => {},
            Some(entry) => match entry.data {
                InstructionData::Jump { args, destination, .. } => {
                    lemma_jump_tidy(func, table, state, cbt, inst, args@, destination, fuel, fixed);
                },
                InstructionData::MultiAry { opcode, args } => {
                    lemma_operands_tidy(func, table, state, args@, fuel, fixed);
                    lemma_tidy_tail(
                        state,
                        lowered_operands(func, table, state, args@, fuel),
                        fixed,
                    );
                },
                InstructionData::Branch { opcode, args, destination } => {
                    lemma_branch_tidy(
                        func,
                        table,
                        state,
                        cbt,
                        insts,
                        pos,
                        opcode,
                        args@,
                        destination,
                        fuel,
                        fixed,
                    );
                },
                _ => {
                    if crate::conversions::block::is_deferred(entry) {
                        lemma_block_from_tidy(func, table, state, cbt, insts, pos + 1, fuel, fixed);
                    } else {
                        lemma_inst_tidy(func, table, state, inst, fuel, fixed);
                        let here = lowered_inst(func, table, state, inst, fuel);
                        lemma_tidy_settled(state, here, fixed);
                        lemma_block_from_tidy(
                            func,
                            table,
                            here.state,
                            cbt,
                            insts,
                            pos + 1,
                            fuel,
                            fixed,
                        );
                        lemma_tidy_join(
                            state,
                            here,
                            lowered_block_from(func, table, here.state, cbt, insts, pos + 1, fuel),
                            fixed,
                            fixed,
                        );
                    }
                },
            },
        }
    }
}

/// The lowering of a block is tidy.
pub proof fn lemma_block_tidy(
    func: SourceFunction,
    table: OperandTableView,
    state: TranslatorState,
    cbt: CanBranchToView,
    block: Block,
    fixed: Set<LocalId>,
)
    requires
        settled(state, fixed),
        params_fixed(table, fixed),
        dispatch_fixed(cbt, fixed),
    ensures
        tidy(state, lowered_block(func, table, state, cbt, block), fixed),
{
    lemma_tidy_start(state, fixed);
    lemma_tidy_tail(state, Emission::start(state), fixed);
    match crate::conversions::block::block_insts(func.layout@, block) {
        None => {},
        Some(insts) => {
            lemma_block_from_tidy(func, table, state, cbt, insts, 0, func.insts@.len(), fixed);
        },
    }
}

/// A step that is tidy from tables with more locals, of which it may write
/// some, is tidy from the tables without these.
pub proof fn lemma_tidy_widen(
    before: TranslatorState,
    entered: TranslatorState,
    step: Emission,
    fixed: Set<LocalId>,
    wider: Set<LocalId>,
)
    requires
        tidy(entered, step, wider),
        before.locals == entered.locals,
        before.module_locals.len() <= entered.module_locals.len(),
        entered.module_locals.len() <= usize::MAX,
        forall|l: LocalId| #[trigger]
            wider.contains(l) ==> fixed.contains(l) || l >= before.module_locals.len(),
    ensures
        tidy(before, step, fixed),
{
    assert forall|l: LocalId|
        l < before.module_locals.len() && set_count(step.code, l) > 0 implies fixed.contains(
        l,
    ) by {
        assert(wider.contains(l));
    }
}

/// Every entry for a selector writes the dispatch local of the selector.
proof fn lemma_dispatch_entries(handled: Seq<HandledView>, local: LocalId)
    ensures
        forall|i: int|
            0 <= i < dispatch_entries(handled, local).len() ==> (#[trigger] dispatch_entries(
                handled,
                local,
            )[i]).1 == BranchInstr::SetLocal(local),
    decreases handled.len(),
{
    if handled.len() > 0 {
        lemma_dispatch_entries(handled.drop_last(), local);
        let before = dispatch_entries(handled.drop_last(), local);
        let row = handled.last().labels.map_values(
            |label: u32| (label, BranchInstr::SetLocal(local)),
        );
        assert(dispatch_entries(handled, local) == before + row);
        assert forall|i: int| 0 <= i < (before + row).len() implies (#[trigger] (before
            + row)[i]).1 == BranchInstr::SetLocal(local) by {
            if i < before.len() {
                assert((before + row)[i] == before[i]);
            } else {
                assert((before + row)[i] == row[i - before.len()]);
            }
        }
    }
}

/// The lowering of a shape is tidy.
pub proof fn lemma_shape_tidy(
    func: SourceFunction,
    table: OperandTableView,
    state: TranslatorState,
    shape: ShapeView,
    label: Option<LocalId>,
    next_exists: bool,
    fixed: Set<LocalId>,
)
    requires
        settled(state, fixed),
        params_fixed(table, fixed),
    ensures
        tidy(state, lowered_shape(func, table, state, shape, label, next_exists), fixed),
    decreases shape, 0nat,
{
    lemma_tidy_start(state, fixed);
    lemma_tidy_tail(state, Emission::start(state), fixed);
    match shape {
        ShapeView::Simple(simple) => {
            if !(immediate_selector(simple) is Some && state.module_locals.len() >= usize::MAX) {
                let dispatch = match immediate_selector(simple) {
                    Some(_) => Some(state.module_locals.len() as usize),
                    None => None,
                };
                let entered = match immediate_selector(simple) {
                    Some(_) => TranslatorState {
                        module_locals: state.module_locals.push(ValType::I32),
                        ..state
                    },
                    None => state,
                };
                let wider = match dispatch {
                    Some(local) => fixed.insert(local),
                    None => fixed,
                };
                let cbt = CanBranchToView {
                    from_relooper: simple.branches,
                    locally_computed: match immediate_selector(simple) {
                        Some(handled) => dispatch_entries(handled, dispatch->Some_0),
                        None => Seq::empty(),
                    },
                };
                if immediate_selector(simple) is Some {
                    lemma_dispatch_entries(immediate_selector(simple)->Some_0, dispatch->Some_0);
                }
                assert(settled(entered, wider));
                assert(params_fixed(table, wider));
                assert(dispatch_fixed(cbt, wider));
                let block = lowered_block(func, table, entered, cbt, simple.label);
                lemma_block_tidy(func, table, entered, cbt, simple.label, wider);
                lemma_tidy_settled(entered, block, wider);
                let inner = match simple.immediate {
                    None => Emission::start(block.state),
                    Some(immediate) => lowered_shape(
                        func,
                        table,
                        block.state,
                        *immediate,
                        dispatch,
                        simple.next is Some,
                    ),
                };
                match simple.immediate {
                    None => {
                        lemma_tidy_start(block.state, wider);
                    },
                    Some(immediate) => {
                        lemma_shape_tidy(
                            func,
                            table,
                            block.state,
                            *immediate,
                            dispatch,
                            simple.next is Some,
                            wider,
                        );
                    },
                }
                lemma_tidy_settled(block.state, inner, wider);
                let last = lowered_next(func, table, inner.state, simple.next);
                lemma_next_tidy(func, table, inner.state, simple.next, wider);
                lemma_tidy_join(block.state, inner, last, wider, wider);
                lemma_tidy_join(entered, block, inner.join(last), wider, wider);
                lemma_tidy_widen(state, entered, block.join(inner.join(last)), fixed, wider);
            }
        },
        ShapeView::Loop(l) => {
            let opened_state = TranslatorState {
                loop_to_block: state.loop_to_block.insert(
                    l.loop_id,
                    crate::target::InstrSeqId::Loop(l.loop_id),
                ),
                ..state
            };
            let first = Emission::start(opened_state);
            assert(tidy(state, first, fixed));
            lemma_tidy_tail(state, first, fixed);
            let second = first.emit(Instr::Block(crate::target::InstrSeqId::Exit(l.loop_id)));
            lemma_tidy_tail(state, second, fixed);
            let opened = second.emit(Instr::Loop(crate::target::InstrSeqId::Loop(l.loop_id)));
            assert(settled(opened.state, fixed));
            let inner = lowered_shape(
                func,
                table,
                opened.state,
                *l.inner,
                None,
                shape_has_next(*l.inner),
            );
            lemma_shape_tidy(
                func,
                table,
                opened.state,
                *l.inner,
                None,
                shape_has_next(*l.inner),
                fixed,
            );
            lemma_tidy_join(state, opened, inner, fixed, fixed);
            let joined = opened.join(inner);
            lemma_tidy_tail(state, joined, fixed);
            let closed = joined.emit(Instr::End);
            lemma_tidy_tail(state, closed, fixed);
            let body = closed.emit(Instr::End);
            lemma_tidy_settled(state, body, fixed);
            lemma_next_tidy(func, table, body.state, l.next, fixed);
            lemma_tidy_join(
                state,
                body,
                lowered_next(func, table, body.state, l.next),
                fixed,
                fixed,
            );
        },
        ShapeView::Multiple(handled) => match label {
            None => {},
            Some(local) => {
                lemma_arms_tidy(func, table, state, handled, local, handled.len(), fixed);
                lemma_tidy_tail(
                    state,
                    lowered_arms(func, table, state, handled, local, handled.len()),
                    fixed,
                );
            },
        },
    }
}

/// The lowering of the shape that comes next is tidy.
pub proof fn lemma_next_tidy(
    func: SourceFunction,
    table: OperandTableView,
    state: TranslatorState,
    next: Option<Box<ShapeView>>,
    fixed: Set<LocalId>,
)
    requires
        settled(state, fixed),
        params_fixed(table, fixed),
    ensures
        tidy(state, lowered_next(func, table, state, next), fixed),
    decreases next, 0nat,
{
    match next {
        None => {
            lemma_tidy_start(state, fixed);
        },
        Some(shape) => {
            lemma_shape_tidy(func, table, state, *shape, None, shape_has_next(*shape), fixed);
        },
    }
}

/// The lowering of the first arms of a selector is tidy.
pub proof fn lemma_arms_tidy(
    func: SourceFunction,
    table: OperandTableView,
    state: TranslatorState,
    handled: Seq<HandledView>,
    local: LocalId,
    count: nat,
    fixed: Set<LocalId>,
)
    requires
        settled(state, fixed),
        params_fixed(table, fixed),
    ensures
        tidy(state, lowered_arms(func, table, state, handled, local, count), fixed),
    decreases handled, count,
{
    if count == 0 || count > handled.len() {
        lemma_tidy_start(state, fixed);
    } else {
        lemma_arms_tidy(func, table, state, handled, local, (count - 1) as nat, fixed);
        let before = lowered_arms(func, table, state, handled, local, (count - 1) as nat);
        lemma_tidy_settled(state, before, fixed);
        let arm = handled[count - 1];
        lemma_arm_tidy(func, table, before.state, arm, local, arm.labels.len(), fixed);
        lemma_tidy_join(
            state,
            before,
            lowered_arm(func, table, before.state, arm, local, arm.labels.len()),
            fixed,
            fixed,
        );
    }
}

/// The lowering of an arm of a selector for its first labels is tidy.
pub proof fn lemma_arm_tidy(
    func: SourceFunction,
    table: OperandTableView,
    state: TranslatorState,
    arm: HandledView,
    local: LocalId,
    count: nat,
    fixed: Set<LocalId>,
)
    requires
        settled(state, fixed),
        params_fixed(table, fixed),
    ensures
        tidy(state, lowered_arm(func, table, state, arm, local, count), fixed),
    decreases arm, count,
{
    if count == 0 || count > arm.labels.len() {
        lemma_tidy_start(state, fixed);
    } else {
        lemma_arm_tidy(func, table, state, arm, local, (count - 1) as nat, fixed);
        let before = lowered_arm(func, table, state, arm, local, (count - 1) as nat);
        if before.is_ok() {
            lemma_tidy_emit_all(state, before, fixed, arm_guard(local, arm.labels[count - 1]));
            let guard = emit_all(before, arm_guard(local, arm.labels[count - 1]));
            lemma_tidy_settled(state, guard, fixed);
            let inner = lowered_shape(
                func,
                table,
                guard.state,
                *arm.inner,
                None,
                shape_has_next(*arm.inner),
            );
            lemma_shape_tidy(
                func,
                table,
                guard.state,
                *arm.inner,
                None,
                shape_has_next(*arm.inner),
                fixed,
            );
            lemma_tidy_join(state, guard, inner, fixed, fixed);
            lemma_tidy_tail(state, guard.join(inner), fixed);
            lemma_tidy_tail(state, guard.join(inner).emit(Instr::Else), fixed);
        }
    }
}

/// The locals of the parameters of the blocks are the first locals: with
/// `base` locals before them, they are below `base` and the number of all
/// parameters.
pub proof fn lemma_param_locals_bound(
    layout: Seq<crate::ir::BlockData>,
    base: nat,
    block: Block,
    i: int,
)
    requires
        base + layout_params(layout).len() <= usize::MAX,
        block_param_locals(layout, base).contains_key(block),
        0 <= i < block_param_locals(layout, base)[block].len(),
    ensures
        base <= block_param_locals(layout, base)[block][i].1 < base + layout_params(layout).len(),
    decreases layout.len(),
{
    if layout.len() > 0 {
        if layout.last().block != block || layout.last().params@.len() == 0 {
            lemma_param_locals_bound(layout.drop_last(), base, block, i);
        }
    }
}

/// The locals below a bound.
pub open spec fn locals_below(bound: nat) -> Set<LocalId> {
    Set::new(|l: LocalId| l < bound)
}

/// The lowering of a function from its initial tables is tidy, where the
/// locals of the block parameters may be written.
pub proof fn lemma_lowering_tidy(func: SourceFunction, shape: ShapeView)
    requires
        operand_table(func, 0) is Ok,
        layout_params(func.layout@).len() <= usize::MAX,
    ensures
        tidy(
            initial_state(func),
            lowered_shape(
                func,
                operand_table(func, 0)->Ok_0,
                initial_state(func),
                shape,
                None,
                shape_has_next(shape),
            ),
            locals_below(layout_params(func.layout@).len()),
        ),
{
    let table = operand_table(func, 0)->Ok_0;
    let start = initial_state(func);
    let count = layout_params(func.layout@).len();
    let fixed = locals_below(count);
    lemma_value_types_ok(func, layout_params(func.layout@));
    assert(start.module_locals.len() == count);
    assert(settled(start, fixed));
    assert forall|block: Block, i: int|
        table.block_params.contains_key(block) && 0 <= i < table.block_params[block].len()
            implies fixed.contains((#[trigger] table.block_params[block][i]).1) by {
        lemma_param_locals_bound(func.layout@, 0, block, i);
    }
    lemma_shape_tidy(func, table, start, shape, None, shape_has_next(shape), fixed);
}

/// A value with several uses is written to its local once.
///
/// Whatever the shape of the control flow: every value that has a local
/// after the lowering of a function is written to that local by exactly one
/// instruction of what was emitted, and read from it by at least one.
pub proof fn lemma_value_local_written_once(func: SourceFunction, shape: ShapeView, value: Value)
    requires
        operand_table(func, 0) is Ok,
        layout_params(func.layout@).len() <= usize::MAX,
        lowered_shape(
            func,
            operand_table(func, 0)->Ok_0,
            initial_state(func),
            shape,
            None,
            shape_has_next(shape),
        ).state.locals.contains_key(value),
    ensures
        ({
            let lowered = lowered_shape(
                func,
                operand_table(func, 0)->Ok_0,
                initial_state(func),
                shape,
                None,
                shape_has_next(shape),
            );
            &&& set_count(lowered.code, lowered.state.locals[value]) == 1
            &&& get_count(lowered.code, lowered.state.locals[value]) >= 1
        }),
{
    lemma_lowering_tidy(func, shape);
}

/// In the body of a translated function, every value that got a local is
/// written to that local by exactly one instruction, and read from it by at
/// least one, whatever the shape of the control flow.
pub proof fn lemma_translated_value_locals(func: SourceFunction, shape: ShapeView, value: Value)
    requires
        shaped_translation(func, shape) is Ok,
        layout_params(func.layout@).len() <= usize::MAX,
        lowering(func, shape).state.locals.contains_key(value),
    ensures
        ({
            let local = lowering(func, shape).state.locals[value];
            let body = shaped_translation(func, shape)->Ok_0;
            &&& set_count(body.instrs, local) == 1
            &&& get_count(body.instrs, local) >= 1
        }),
{
    lemma_value_local_written_once(func, shape, value);
    let lowered = lowering(func, shape);
    lemma_count_push(lowered.code, Instr::Unreachable, lowered.state.locals[value]);
}

/// A value with several uses that has its local already is read from it,
/// and nothing else happens.
pub proof fn lemma_kept_value_is_read(
    func: SourceFunction,
    table: OperandTableView,
    state: TranslatorState,
    value: Value,
    fuel: nat,
)
    requires
        func.spec_value(value) is Some,
        func.spec_value(value)->Some_0.def is Result,
        classify(table, value) == Operand::NormalUse(value),
        state.locals.contains_key(value),
    ensures
        lowered_value(func, table, state, value, fuel) == Emission::start(state).emit(
            Instr::LocalGet(state.locals[value]),
        ),
{
}

/// A value with several uses that has no local yet gets a fresh one of its
/// type where it is lowered: the last two instructions write the value to the
/// local and read it back.
pub proof fn lemma_first_use_binds(
    func: SourceFunction,
    table: OperandTableView,
    state: TranslatorState,
    value: Value,
    fuel: nat,
)
    requires
        func.spec_value(value) is Some,
        func.spec_value(value)->Some_0.def is Result,
        classify(table, value) == Operand::NormalUse(value),
        !state.locals.contains_key(value),
        lowered_value(func, table, state, value, fuel).is_ok(),
    ensures
        ({
            let out = lowered_value(func, table, state, value, fuel);
            let local = out.state.locals[value];
            &&& out.state.locals.contains_key(value)
            &&& local == out.state.module_locals.len() - 1
            &&& Some(out.state.module_locals[local as int]) == crate::conversions::ty::wasm_type(
                func.spec_value(value)->Some_0.ty,
            )
            &&& out.code.len() >= 2
            &&& out.code[out.code.len() - 2] == Instr::LocalSet(local)
            &&& out.code[out.code.len() - 1] == Instr::LocalGet(local)
        }),
{
}

/// A rematerialised constant is emitted anew at every use.
///
/// Wherever a value that the table rematerialises is lowered, and whatever
/// the tables are, the constant that defines it is pushed at the width of its
/// type; no local is involved and the tables stay as they are.
pub proof fn lemma_rematerialised_constant(
    func: SourceFunction,
    table: OperandTableView,
    state: TranslatorState,
    value: Value,
    fuel: nat,
)
    requires
        table.rematerialize.contains(value),
        fuel > 0,
        func.spec_value(value) is Some,
        func.spec_value(value)->Some_0.def is Result,
        func.spec_inst(func.spec_value(value)->Some_0.def->Result_0) is Some,
        func.spec_inst(func.spec_value(value)->Some_0.def->Result_0)->Some_0.data is UnaryImm,
        func.spec_inst(func.spec_value(value)->Some_0.def->Result_0)->Some_0.data->UnaryImm_opcode
            == Opcode::Iconst,
        func.spec_inst(func.spec_value(value)->Some_0.def->Result_0)->Some_0.results@ == seq![
            value,
        ],
        is_32_bits(func.spec_value(value)->Some_0.ty) is Ok,
    ensures
        lowered_value(func, table, state, value, fuel) == Emission::start(state).emit(
            const_instr(
                is_32_bits(func.spec_value(value)->Some_0.ty)->Ok_0,
                func.spec_inst(
                    func.spec_value(value)->Some_0.def->Result_0,
                )->Some_0.data->UnaryImm_imm,
            ),
        ),
{
}

/// The locals below a bound that a list of instructions writes, in the
/// order of the writes.
pub open spec fn sets_below(code: Seq<Instr>, bound: nat) -> Seq<LocalId>
    decreases code.len(),
{
    if code.len() == 0 {
        Seq::empty()
    } else {
        let before = sets_below(code.drop_last(), bound);
        match code.last() {
            Instr::LocalSet(local) => if local < bound {
                before.push(local)
            } else {
                before
            },
            _ => before,
        }
    }
}

/// What two lists write below a bound, their concatenation writes.
pub proof fn lemma_sets_below_concat(a: Seq<Instr>, b: Seq<Instr>, bound: nat)
    ensures
        sets_below(a + b, bound) == sets_below(a, bound) + sets_below(b, bound),
    decreases b.len(),
{
    if b.len() == 0 {
        assert(a + b == a);
        assert(sets_below(a, bound) + sets_below(b, bound) == sets_below(a, bound));
    } else {
        assert((a + b).drop_last() == a + b.drop_last());
        lemma_sets_below_concat(a, b.drop_last(), bound);
        let most = sets_below(a, bound) + sets_below(b.drop_last(), bound);
        match b.last() {
            Instr::LocalSet(local) => {
                if local < bound {
                    assert(most.push(local) == sets_below(a, bound) + sets_below(
                        b.drop_last(),
                        bound,
                    ).push(local));
                }
            },
            _ => {},
        }
    }
}

/// A list that writes no local below a bound writes none of them.
pub proof fn lemma_sets_below_none(code: Seq<Instr>, bound: nat)
    requires
        forall|l: LocalId| l < bound ==> set_count(code, l) == 0,
    ensures
        sets_below(code, bound) == Seq::<LocalId>::empty(),
    decreases code.len(),
{
    if code.len() > 0 {
        assert forall|l: LocalId| l < bound implies set_count(code.drop_last(), l) == 0 by {
            assert(set_count(code, l) == 0);
        }
        lemma_sets_below_none(code.drop_last(), bound);
        match code.last() {
            Instr::LocalSet(local) => {
                if local < bound {
                    assert(set_count(code, local) == 0);
                }
            },
            _ => {},
        }
    }
}

/// Where the arguments of an edge are handed to as many parameters, whose
/// locals are among those of `fixed`, the locals that were allocated before
/// and are written are exactly those of the parameters, one after the other.
proof fn lemma_edge_writes_params(
    func: SourceFunction,
    table: OperandTableView,
    state: TranslatorState,
    args: Seq<Value>,
    params: Seq<(Value, LocalId)>,
    fuel: nat,
    fixed: Set<LocalId>,
)
    requires
        args.len() == params.len(),
        settled(state, fixed),
        forall|i: int| 0 <= i < params.len() ==> fixed.contains((#[trigger] params[i]).1),
        lowered_edge(func, table, state, args, params, fuel).is_ok(),
    ensures
        sets_below(
            lowered_edge(func, table, state, args, params, fuel).code,
            state.module_locals.len(),
        ) == param_locals(params),
    decreases args.len(),
{
    let bound = state.module_locals.len();
    if args.len() == 0 {
        assert(param_locals(params) =~= Seq::<LocalId>::empty());
    } else {
        let before = lowered_edge(func, table, state, args.drop_last(), params.drop_last(), fuel);
        assert forall|i: int| 0 <= i < params.drop_last().len() implies fixed.contains(
            (#[trigger] params.drop_last()[i]).1,
        ) by {
            assert(params.drop_last()[i] == params[i]);
        }
        lemma_edge_writes_params(
            func,
            table,
            state,
            args.drop_last(),
            params.drop_last(),
            fuel,
            fixed,
        );
        lemma_edge_tidy(func, table, state, args.drop_last(), params.drop_last(), fuel, fixed);
        lemma_tidy_settled(state, before, fixed);
        let here = lowered_value(func, table, before.state, args.last(), fuel);
        let none = Set::<LocalId>::empty();
        assert(settled(before.state, none));
        lemma_value_tidy(func, table, before.state, args.last(), fuel, none);
        assert forall|l: LocalId| l < bound implies set_count(here.code, l) == 0 by {
            if set_count(here.code, l) > 0 {
                assert(l < before.state.module_locals.len());
                assert(none.contains(l));
            }
        }
        lemma_sets_below_none(here.code, bound);
        let local = params.last().1;
        assert(fixed.contains(params[params.len() - 1].1));
        let code = (before.code + here.code).push(Instr::LocalSet(local));
        assert(lowered_edge(func, table, state, args, params, fuel).code == code);
        assert(code == (before.code + here.code) + seq![Instr::LocalSet(local)]);
        lemma_sets_below_concat(before.code + here.code, seq![Instr::LocalSet(local)], bound);
        lemma_sets_below_concat(before.code, here.code, bound);
        let only = seq![Instr::LocalSet(local)];
        assert(local < bound);
        assert(only.drop_last() == Seq::<Instr>::empty());
        assert(only.last() == Instr::LocalSet(local));
        assert(sets_below(only.drop_last(), bound) == Seq::<LocalId>::empty());
        assert(sets_below(only, bound) == Seq::<LocalId>::empty().push(local));
        assert(sets_below(only, bound) == seq![local]);
        assert(param_locals(params) =~= param_locals(params.drop_last()).push(local));
    }
}

/// The locals of the parameters of a block, in the order of the parameters:
/// none for a block without an entry in the table.
pub open spec fn destination_locals(table: OperandTableView, destination: Block) -> Seq<LocalId> {
    if table.block_params.contains_key(destination) {
        param_locals(table.block_params[destination])
    } else {
        Seq::empty()
    }
}

/// The locals of the parameters of all blocks.
pub open spec fn parameter_locals(table: OperandTableView) -> Set<LocalId> {
    Set::new(
        |l: LocalId|
            exists|block: Block, i: int|
                table.block_params.contains_key(block) && 0 <= i < table.block_params[block].len()
                    && (#[trigger] table.block_params[block][i]).1 == l,
    )
}

/// Are the tables of a translation valid? The machine can count the locals;
/// the local of every block parameter and of every value is allocated; and
/// no value has the local of a block parameter.
pub open spec fn tables_valid(table: OperandTableView, state: TranslatorState) -> bool {
    settled(state, parameter_locals(table))
}

/// The tables at the start of the translation of a function are valid.
pub proof fn lemma_initial_tables_valid(func: SourceFunction)
    requires
        operand_table(func, 0) is Ok,
        layout_params(func.layout@).len() <= usize::MAX,
    ensures
        tables_valid(operand_table(func, 0)->Ok_0, initial_state(func)),
{
    let table = operand_table(func, 0)->Ok_0;
    let start = initial_state(func);
    lemma_value_types_ok(func, layout_params(func.layout@));
    assert(start.module_locals.len() == layout_params(func.layout@).len());
    assert forall|l: LocalId| #[trigger] parameter_locals(table).contains(l) implies l
        < start.module_locals.len() by {
        let (block, i) = choose|block: Block, i: int|
            table.block_params.contains_key(block) && 0 <= i < table.block_params[block].len()
                && (#[trigger] table.block_params[block][i]).1 == l;
        lemma_param_locals_bound(func.layout@, 0, block, i);
    }
}

/// The lowering of a value keeps the tables of a translation valid.
pub proof fn lemma_value_keeps_tables_valid(
    func: SourceFunction,
    table: OperandTableView,
    state: TranslatorState,
    value: Value,
    fuel: nat,
)
    requires
        tables_valid(table, state),
    ensures
        tables_valid(table, lowered_value(func, table, state, value, fuel).state),
{
    let fixed = parameter_locals(table);
    lemma_value_tidy(func, table, state, value, fuel, fixed);
    lemma_tidy_settled(state, lowered_value(func, table, state, value, fuel), fixed);
}

/// The lowering of a shape keeps the tables of a translation valid.
pub proof fn lemma_shape_keeps_tables_valid(
    func: SourceFunction,
    table: OperandTableView,
    state: TranslatorState,
    shape: ShapeView,
    label: Option<LocalId>,
    next_exists: bool,
)
    requires
        tables_valid(table, state),
    ensures
        tables_valid(table, lowered_shape(func, table, state, shape, label, next_exists).state),
{
    let fixed = parameter_locals(table);
    lemma_shape_tidy(func, table, state, shape, label, next_exists, fixed);
    lemma_tidy_settled(
        state,
        lowered_shape(func, table, state, shape, label, next_exists),
        fixed,
    );
}

/// An edge to a block writes the parameter locals of the block in positional
/// order.
///
/// Where the arguments of an edge to a destination are lowered with success
/// from valid tables, the locals that were allocated before and are written
/// are exactly the locals of the parameters of the destination, one after
/// the other; and where the destination has parameters, there are as many
/// arguments. The locals that are allocated on the way are those of values.
pub proof fn lemma_edge_writes(
    func: SourceFunction,
    table: OperandTableView,
    state: TranslatorState,
    inst: Inst,
    args: Seq<Value>,
    destination: Block,
    fuel: nat,
)
    requires
        tables_valid(table, state),
        lowered_edge_to(func, table, state, inst, args, destination, fuel).is_ok(),
    ensures
        table.block_params.contains_key(destination) ==> table.block_params[destination].len()
            == args.len(),
        sets_below(
            lowered_edge_to(func, table, state, inst, args, destination, fuel).code,
            state.module_locals.len(),
        ) == destination_locals(table, destination),
{
    if table.block_params.contains_key(destination) {
        lemma_edge_writes_params(
            func,
            table,
            state,
            args,
            table.block_params[destination],
            fuel,
            parameter_locals(table),
        );
    }
}

} // verus!
