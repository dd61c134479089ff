//! The lowering of a block: its terminators, and the edges that they take.

use vstd::prelude::*;

use crate::assoc::{find, lookup};
use crate::conversions::inst::{
    build_wasm_inst, lowered_inst, lowered_value, translate_value, type_of, value_type,
};
use crate::emission::{lemma_ok_unit, nat_of, Emission};
use crate::error::TranslationError;
use crate::ir::{
    Block, BlockData, Inst, InstData, InstructionData, Opcode, SourceFunction, Type, TypeKind,
    Value,
};
use crate::optable::OperandTableView;
use crate::shape::entry_map;
use relooper::BranchMode;
use crate::target::{label_word, label_word_of, BinaryOp, Instr, InstrSeqId, LocalId};
use crate::translator::{IndividualFunctionTranslator, TranslatorState};

verus! {

broadcast use vstd::std_specs::hash::group_hash_axioms;

/// How a block reaches a destination that a selector dispatches on.
#[derive(Clone, Copy, Debug, PartialEq, Eq, Structural)]
pub enum BranchInstr {
    /// Write the destination's id into this local.
    SetLocal(LocalId),
}

/// How each outgoing edge of a block is realised.
pub struct CanBranchTo<'a> {
    /// The kind of each edge that leaves the structure the block stands in.
    pub from_relooper: &'a Vec<(u32, BranchMode)>,
    /// The destinations that the selector after the block dispatches on.
    pub locally_computed: Vec<(u32, BranchInstr)>,
}

/// The mathematical content of a [`CanBranchTo`].
pub ghost struct CanBranchToView {
    pub from_relooper: Map<u32, BranchMode>,
    pub locally_computed: Seq<(u32, BranchInstr)>,
}

impl<'a> View for CanBranchTo<'a> {
    type V = CanBranchToView;

    open spec fn view(&self) -> CanBranchToView {
        CanBranchToView {
            from_relooper: entry_map(self.from_relooper@),
            locally_computed: self.locally_computed@,
        }
    }
}

/// What is emitted to leave the values of a list of operands on the operand
/// stack, the first of them lowest.
pub open spec fn lowered_operands(
    func: SourceFunction,
    table: OperandTableView,
    state: TranslatorState,
    args: Seq<Value>,
    fuel: nat,
) -> Emission
    decreases args.len(),
{
    if args.len() == 0 {
        Emission::start(state)
    } else {
        let before = lowered_operands(func, table, state, args.drop_last(), fuel);
        before.join(lowered_value(func, table, before.state, args.last(), fuel))
    }
}

/// What is emitted to hand the arguments of an edge to the parameters of its
/// destination: each argument in turn is computed and written to the local
/// of the parameter at its position.
pub open spec fn lowered_edge(
    func: SourceFunction,
    table: OperandTableView,
    state: TranslatorState,
    args: Seq<Value>,
    params: Seq<(Value, LocalId)>,
    fuel: nat,
) -> Emission
    recommends
        args.len() == params.len(),
    decreases args.len(),
{
    if args.len() == 0 || params.len() == 0 {
        Emission::start(state)
    } else {
        let before = lowered_edge(func, table, state, args.drop_last(), params.drop_last(), fuel);
        before.join(lowered_value(func, table, before.state, args.last(), fuel)).emit(
            Instr::LocalSet(params.last().1),
        )
    }
}

/// What is emitted for the arguments of an edge of an instruction to a
/// destination. A destination without an entry in the table of the block
/// parameters has no parameter to write, and nothing is emitted; for one with
/// an entry there must be as many arguments as it has parameters.
pub open spec fn lowered_edge_to(
    func: SourceFunction,
    table: OperandTableView,
    state: TranslatorState,
    inst: Inst,
    args: Seq<Value>,
    destination: Block,
    fuel: nat,
) -> Emission {
    let start = Emission::start(state);
    if !table.block_params.contains_key(destination) {
        start
    } else if table.block_params[destination].len() != args.len() {
        start.fail(TranslationError::ArityMismatch(inst))
    } else {
        lowered_edge(func, table, state, args, table.block_params[destination], fuel)
    }
}

/// The kind of the edge to a destination, if the edge has one.
pub open spec fn edge_kind(kinds: Map<u32, BranchMode>, destination: Block) -> Option<BranchMode> {
    if kinds.contains_key(destination) {
        Some(kinds[destination])
    } else {
        None
    }
}

/// The instructions that choose the arm for a destination in the selector
/// that dispatches on a local.
pub open spec fn dispatch_write(destination: Block, local: LocalId) -> Seq<Instr> {
    seq![Instr::I32Const(label_word(destination)), Instr::LocalSet(local)]
}

/// The number that is written to a dispatch local to choose no arm of its
/// selector. A selector cannot dispatch on the block of this id.
pub const NO_ARM: u32 = 0x7fff_ffff;

/// The instructions that make the selector after the block choose no arm:
/// they write [`NO_ARM`] into its dispatch local. Nothing where no selector
/// follows.
pub open spec fn skip_selector(cbt: CanBranchToView) -> Seq<Instr> {
    if cbt.locally_computed.len() == 0 {
        Seq::empty()
    } else {
        match cbt.locally_computed[0].1 {
            BranchInstr::SetLocal(local) => seq![
                Instr::I32Const(label_word(NO_ARM)),
                Instr::LocalSet(local),
            ],
        }
    }
}

/// How control is transferred on a conditional edge that falls through:
/// under a guard whose first arm makes the selector after the block choose
/// no arm, see [`skip_selector`]. Where the selector dispatches on
/// [`NO_ARM`] it cannot be told to choose no arm, and there is no
/// realisation.
pub open spec fn skip_realisation(cbt: CanBranchToView) -> Result<
    (bool, Seq<Instr>),
    TranslationError,
> {
    if lookup(cbt.locally_computed, NO_ARM) is Some {
        Err(TranslationError::ReservedBlock(NO_ARM))
    } else {
        Ok((true, skip_selector(cbt)))
    }
}

/// An emission followed by some instructions, if it succeeded.
pub open spec fn emit_all(emission: Emission, code: Seq<Instr>) -> Emission {
    if emission.is_ok() {
        Emission { code: emission.code + code, ..emission }
    } else {
        emission
    }
}

/// Does an edge of this kind lead into a selector, so that the id of its
/// destination has to be written to the dispatch local of the selector?
pub open spec fn into_selector(kind: Option<BranchMode>) -> bool {
    match kind {
        Some(BranchMode::LoopBreakIntoMulti(_)) => true,
        Some(BranchMode::LoopContinueIntoMulti(_)) => true,
        Some(BranchMode::MergedBranchIntoMulti) => true,
        Some(BranchMode::SetLabelAndBreak) => true,
        _ => false,
    }
}

/// The sequence that control branches to on an edge of a kind, while the
/// loops of `loops` are open: the block around the loop on an edge that
/// leaves a loop, the loop on an edge that continues one, and none on the
/// other edges, on which control goes on to what follows the block. The loop
/// must have been opened.
pub open spec fn branch_target(kind: Option<BranchMode>, loops: Map<u16, InstrSeqId>) -> Result<
    Option<InstrSeqId>,
    TranslationError,
> {
    match kind {
        Some(BranchMode::LoopBreak(id)) => if loops.contains_key(id) {
            Ok(Some(InstrSeqId::Exit(id)))
        } else {
            Err(TranslationError::MissingLoop(id))
        },
        Some(BranchMode::LoopBreakIntoMulti(id)) => if loops.contains_key(id) {
            Ok(Some(InstrSeqId::Exit(id)))
        } else {
            Err(TranslationError::MissingLoop(id))
        },
        Some(BranchMode::LoopContinue(id)) => if loops.contains_key(id) {
            Ok(Some(loops[id]))
        } else {
            Err(TranslationError::MissingLoop(id))
        },
        Some(BranchMode::LoopContinueIntoMulti(id)) => if loops.contains_key(id) {
            Ok(Some(loops[id]))
        } else {
            Err(TranslationError::MissingLoop(id))
        },
        _ => Ok(None),
    }
}

/// The sequence that control branches to after the write to a dispatch
/// local: that of an edge that leads into a selector, see [`branch_target`].
/// After the write for another edge control goes on to the selector after
/// the block.
pub open spec fn target_after_write(kind: Option<BranchMode>, loops: Map<u16, InstrSeqId>) -> Result<
    Option<InstrSeqId>,
    TranslationError,
> {
    if into_selector(kind) {
        branch_target(kind, loops)
    } else {
        Ok(None)
    }
}

/// The instructions that transfer control on an unconditional edge to a
/// destination, while the loops of `loops` are open.
///
/// - Where the block has a dispatch local for the destination, the id of the
///   destination is written to it, which chooses the arm of the selector;
///   on an edge that leads into a selector out of a loop, or back to the
///   loop, the branch out of the loop or to the loop follows, see
///   [`target_after_write`].
/// - An edge of a kind that leads into a selector needs such a local.
/// - Else, on an edge that continues a loop, a branch to the loop; on an edge
///   that leaves a loop, a branch to the block around the loop, see
///   [`branch_target`].
/// - Else, on an edge that falls through, and to a destination without a
///   kind, nothing: control goes on to what follows the block.
pub open spec fn jump_realisation(
    cbt: CanBranchToView,
    loops: Map<u16, InstrSeqId>,
    destination: Block,
) -> Result<Seq<Instr>, TranslationError> {
    let kind = edge_kind(cbt.from_relooper, destination);
    match lookup(cbt.locally_computed, destination) {
        Some(BranchInstr::SetLocal(local)) => match target_after_write(kind, loops) {
            Err(e) => Err(e),
            Ok(Some(target)) => Ok(dispatch_write(destination, local).push(Instr::Br(target))),
            Ok(None) => Ok(dispatch_write(destination, local)),
        },
        None => if into_selector(kind) {
            Err(TranslationError::UndispatchedBlock(destination))
        } else {
            match branch_target(kind, loops) {
                Err(e) => Err(e),
                Ok(Some(target)) => Ok(seq![Instr::Br(target)]),
                Ok(None) => Ok(Seq::empty()),
            }
        },
    }
}

/// What is emitted for an unconditional jump: the arguments of the edge, see
/// [`lowered_edge_to`], then the transfer of control, see
/// [`jump_realisation`].
pub open spec fn lowered_jump(
    func: SourceFunction,
    table: OperandTableView,
    state: TranslatorState,
    cbt: CanBranchToView,
    inst: Inst,
    args: Seq<Value>,
    destination: Block,
    fuel: nat,
) -> Emission {
    let edge = lowered_edge_to(func, table, state, inst, args, destination, fuel);
    match jump_realisation(cbt, edge.state.loop_to_block, destination) {
        Ok(code) => emit_all(edge, code),
        Err(e) => edge.fail(e),
    }
}

/// The instructions that turn a condition of a type into a truth value for
/// a branch on zero (`zero`) or on non-zero: a comparison with zero at the
/// width of the type, where narrow integers are compared at 32 bits. A
/// boolean is taken as it stands, by a branch on zero too.
pub open spec fn normalise(ty: Type, zero: bool) -> Result<Seq<Instr>, TranslationError> {
    if ty.kind == TypeKind::Bool {
        Ok(Seq::empty())
    } else if ty.bits == 64 {
        Ok(seq![Instr::I64Const(0), Instr::Binop(if zero { BinaryOp::I64Eq } else { BinaryOp::I64Ne })])
    } else if ty.bits <= 32 {
        Ok(seq![Instr::I32Const(0), Instr::Binop(if zero { BinaryOp::I32Eq } else { BinaryOp::I32Ne })])
    } else {
        Err(TranslationError::UnsupportedType(ty))
    }
}

/// What is emitted for a conditional branch before control is transferred:
/// the arguments of the edge, which are the operands after the first, then
/// the first operand, which is the condition, as a truth value, see
/// [`normalise`]. The edge is taken where the truth value is not zero. Only
/// branches on zero and on non-zero are implemented.
pub open spec fn lowered_branch_head(
    func: SourceFunction,
    table: OperandTableView,
    state: TranslatorState,
    inst: Inst,
    opcode: Opcode,
    args: Seq<Value>,
    destination: Block,
    fuel: nat,
) -> Emission {
    let start = Emission::start(state);
    if opcode != Opcode::Brz && opcode != Opcode::Brnz {
        start.fail(TranslationError::UnimplementedOpcode(opcode))
    } else if args.len() == 0 {
        start.fail(TranslationError::MissingCondition(inst))
    } else {
        let edge = lowered_edge_to(func, table, state, inst, args.skip(1), destination, fuel);
        let cond = edge.join(lowered_value(func, table, edge.state, args[0], fuel));
        match value_type(func, args[0]) {
            None => cond.fail(TranslationError::UnknownValue(args[0])),
            Some(ty) => match normalise(ty, opcode == Opcode::Brz) {
                Err(e) => cond.fail(e),
                Ok(code) => emit_all(cond, code),
            },
        }
    }
}

/// Is the instruction lowered where its value is used, and not where it
/// stands? That holds of an instruction that defines a value and computes it
/// from its operands alone.
pub open spec fn is_deferred(entry: InstData) -> bool {
    entry.results@.len() > 0 && match entry.data {
        InstructionData::UnaryImm { .. } => true,
        InstructionData::Binary { .. } => true,
        InstructionData::BinaryImm64 { .. } => true,
        InstructionData::IntCompare { .. } => true,
        InstructionData::IntCompareImm { .. } => true,
        _ => false,
    }
}

/// How control is transferred on a conditional edge to a destination, while
/// the loops of `loops` are open: under a guard (`true`) with the
/// instructions of its first arm, or by the instructions given, which branch
/// on the condition.
///
/// - Where the block has a dispatch local for the destination, a guard whose
///   first arm writes the id of the destination to it, which chooses the arm
///   of the selector, and then branches where the edge leads into a selector
///   out of a loop or back to the loop, see [`target_after_write`]. An edge
///   of a kind that leads into a selector needs such a local.
/// - Else, on an edge that leaves or continues a loop, which must have been
///   opened, a conditional branch to the block around the loop or to the
///   loop.
/// - Else, on an edge that falls through, and to a destination without a
///   kind, a guard whose first arm makes the selector after the block choose
///   no arm, see [`skip_realisation`].
pub open spec fn branch_realisation(
    cbt: CanBranchToView,
    loops: Map<u16, InstrSeqId>,
    destination: Block,
) -> Result<(bool, Seq<Instr>), TranslationError> {
    let kind = edge_kind(cbt.from_relooper, destination);
    match lookup(cbt.locally_computed, destination) {
        Some(BranchInstr::SetLocal(local)) => match target_after_write(kind, loops) {
            Err(e) => Err(e),
            Ok(Some(target)) => Ok(
                (true, dispatch_write(destination, local).push(Instr::Br(target))),
            ),
            Ok(None) => Ok((true, dispatch_write(destination, local))),
        },
        None => if into_selector(kind) {
            Err(TranslationError::UndispatchedBlock(destination))
        } else {
            match branch_target(kind, loops) {
                Err(e) => Err(e),
                Ok(Some(target)) => Ok((false, seq![Instr::BrIf(target)])),
                Ok(None) => skip_realisation(cbt),
            }
        },
    }
}

/// What is emitted for a conditional branch at a position of a block, and
/// for the instructions after it.
///
/// First come the arguments of the edge and the condition, see
/// [`lowered_branch_head`]. Then, by [`branch_realisation`] and with `rest`
/// for what is emitted for the instructions after the branch: under a guard,
/// an `if` with the instructions of the first arm and with `rest` as its
/// `else`; otherwise the instructions that branch, followed by `rest`.
pub open spec fn lowered_branch(
    func: SourceFunction,
    table: OperandTableView,
    state: TranslatorState,
    cbt: CanBranchToView,
    insts: Seq<Inst>,
    pos: nat,
    opcode: Opcode,
    args: Seq<Value>,
    destination: Block,
    fuel: nat,
) -> Emission
    decreases insts.len() - pos, 0nat,
{
    if pos >= insts.len() {
        Emission::start(state)
    } else {
        let head = lowered_branch_head(
            func,
            table,
            state,
            insts[pos as int],
            opcode,
            args,
            destination,
            fuel,
        );
        let rest = lowered_block_from(func, table, head.state, cbt, insts, pos + 1, fuel);
        match branch_realisation(cbt, head.state.loop_to_block, destination) {
            Err(e) => head.fail(e),
            Ok((guard, code)) => if guard {
                emit_all(head.emit(Instr::If), code).emit(Instr::Else).join(rest).emit(Instr::End)
            } else {
                emit_all(head, code).join(rest)
            },
        }
    }
}

/// What is emitted for the instructions of a block from a position on.
///
/// The instructions are taken in order, up to the first jump, return or
/// conditional branch:
///
/// - An instruction that computes a value from its operands alone is passed
///   over: it is lowered where the value is used. Any other instruction that
///   does not transfer control is lowered in its place.
/// - A jump emits the arguments of its edge and the transfer of control, see
///   [`lowered_jump`]. Nothing is emitted for what stands after it.
/// - A return emits its operands and returns; no other instruction with a
///   list of operands is implemented. Nothing is emitted for what stands
///   after it.
/// - A conditional branch emits what [`lowered_branch`] says, which includes
///   the instructions after it.
pub open spec fn lowered_block_from(
    func: SourceFunction,
    table: OperandTableView,
    state: TranslatorState,
    cbt: CanBranchToView,
    insts: Seq<Inst>,
    pos: nat,
    fuel: nat,
) -> Emission
    decreases insts.len() - pos, 1nat,
{
    let start = Emission::start(state);
    if pos >= insts.len() {
        start
    } else {
        let inst = insts[pos as int];
        match func.spec_inst(inst) {
            None => start.fail(TranslationError::UnknownInst(inst)),
            Some(entry) => match entry.data {
                InstructionData::Jump { args, destination, .. } => lowered_jump(
                    func,
                    table,
                    state,
                    cbt,
                    inst,
                    args@,
                    destination,
                    fuel,
                ),
                InstructionData::MultiAry { opcode, args } => if opcode == Opcode::Return {
                    lowered_operands(func, table, state, args@, fuel).emit(Instr::Return)
                } else {
                    start.fail(TranslationError::UnimplementedOpcode(opcode))
                },
                InstructionData::Branch { opcode, args, destination } => lowered_branch(
                    func,
                    table,
                    state,
                    cbt,
                    insts,
                    pos,
                    opcode,
                    args@,
                    destination,
                    fuel,
                ),
                _ => {
                    if is_deferred(entry) {
                        lowered_block_from(func, table, state, cbt, insts, pos + 1, fuel)
                    } else {
                        let here = lowered_inst(func, table, state, inst, fuel);
                        here.join(
                            lowered_block_from(func, table, here.state, cbt, insts, pos + 1, fuel),
                        )
                    }
                },
            },
        }
    }
}

/// The instructions of a block of the layout, by the block's id: those of the
/// first block with the id.
pub open spec fn block_insts(layout: Seq<BlockData>, block: Block) -> Option<Seq<Inst>>
    decreases layout.len(),
{
    if layout.len() == 0 {
        None
    } else {
        match block_insts(layout.drop_last(), block) {
            Some(insts) => Some(insts),
            None => if layout.last().block == block {
                Some(layout.last().insts@)
            } else {
                None
            },
        }
    }
}

/// What is emitted for a block: for its instructions from the first on, see
/// [`lowered_block_from`]. The block must be in the layout. Definitions may
/// nest as deep as the function has instructions.
pub open spec fn lowered_block(
    func: SourceFunction,
    table: OperandTableView,
    state: TranslatorState,
    cbt: CanBranchToView,
    block: Block,
) -> Emission {
    match block_insts(func.layout@, block) {
        None => Emission::start(state).fail(TranslationError::UnknownBlock(block)),
        Some(insts) => lowered_block_from(func, table, state, cbt, insts, 0, func.insts@.len()),
    }
}

proof fn lemma_block_insts_prefix(layout: Seq<BlockData>, block: Block, n: int)
    requires
        0 <= n <= layout.len(),
        block_insts(layout.take(n), block) is Some,
    ensures
        block_insts(layout, block) == block_insts(layout.take(n), block),
    decreases layout.len(),
{
    if n < layout.len() {
        assert(layout.drop_last().take(n) == layout.take(n));
        lemma_block_insts_prefix(layout.drop_last(), block, n);
    } else {
        assert(layout.take(n) == layout);
    }
}

/// The first block of the layout with an id.
pub fn find_block(func: &SourceFunction, block: Block) -> (r: Option<&BlockData>)
    ensures
        match r {
            Some(data) => block_insts(func.layout@, block) == Some(data.insts@) && data.block
                == block,
            None => block_insts(func.layout@, block) is None,
        },
{
    let mut i: usize = 0;
    assert(func.layout@.take(0) == Seq::<BlockData>::empty());
    while i < func.layout.len()
        invariant
            i <= func.layout.len(),
            block_insts(func.layout@.take(i as int), block) is None,
        decreases func.layout.len() - i,
    {
        assert(func.layout@.take(i + 1).drop_last() == func.layout@.take(i as int));
        if func.layout[i].block == block {
            proof {
                lemma_block_insts_prefix(func.layout@, block, i + 1);
            }
            return Some(&func.layout[i]);
        }
        i += 1;
    }
    assert(func.layout@.take(i as int) == func.layout@);
    None
}

proof fn lemma_lowered_operands_prefix(
    func: SourceFunction,
    table: OperandTableView,
    state: TranslatorState,
    args: Seq<Value>,
    fuel: nat,
    n: int,
)
    requires
        0 <= n <= args.len(),
        !lowered_operands(func, table, state, args.take(n), fuel).is_ok(),
    ensures
        lowered_operands(func, table, state, args, fuel) == lowered_operands(
            func,
            table,
            state,
            args.take(n),
            fuel,
        ),
    decreases args.len(),
{
    if n < args.len() {
        assert(args.drop_last().take(n) == args.take(n));
        lemma_lowered_operands_prefix(func, table, state, args.drop_last(), fuel, n);
    } else {
        assert(args.take(n) == args);
    }
}

proof fn lemma_lowered_edge_prefix(
    func: SourceFunction,
    table: OperandTableView,
    state: TranslatorState,
    args: Seq<Value>,
    params: Seq<(Value, LocalId)>,
    fuel: nat,
    n: int,
)
    requires
        args.len() == params.len(),
        0 <= n <= args.len(),
        !lowered_edge(func, table, state, args.take(n), params.take(n), fuel).is_ok(),
    ensures
        lowered_edge(func, table, state, args, params, fuel) == lowered_edge(
            func,
            table,
            state,
            args.take(n),
            params.take(n),
            fuel,
        ),
    decreases args.len(),
{
    if n < args.len() {
        assert(args.drop_last().take(n) == args.take(n));
        assert(params.drop_last().take(n) == params.take(n));
        lemma_lowered_edge_prefix(
            func,
            table,
            state,
            args.drop_last(),
            params.drop_last(),
            fuel,
            n,
        );
    } else {
        assert(args.take(n) == args);
        assert(params.take(n) == params);
    }
}

/// Leaves the values of a list of operands on the operand stack.
#[verifier::loop_isolation(false)]
pub fn build_operands(
    args: &Vec<Value>,
    t: &mut IndividualFunctionTranslator<'_>,
    builder: &mut Vec<Instr>,
    can_branch_to: &CanBranchTo<'_>,
    fuel: usize,
) -> (r: Result<(), TranslationError>)
    ensures
        final(t).func == old(t).func,
        final(t).operand_table == old(t).operand_table,
        final(builder)@ =~= old(builder)@ + lowered_operands(
            *old(t).func,
            old(t).operand_table@,
            old(t)@,
            args@,
            nat_of(fuel),
        ).code,
        final(t)@ =~= lowered_operands(
            *old(t).func,
            old(t).operand_table@,
            old(t)@,
            args@,
            nat_of(fuel),
        ).state,
        r == lowered_operands(
            *old(t).func,
            old(t).operand_table@,
            old(t)@,
            args@,
            nat_of(fuel),
        ).result,
{
    let ghost func = *t.func;
    let ghost table = t.operand_table@;
    let ghost state = t@;
    let ghost code = builder@;
    let mut i: usize = 0;
    assert(args@.take(0) == Seq::<Value>::empty());
    while i < args.len()
        invariant
            i <= args.len(),
            t.func == old(t).func,
            t.operand_table == old(t).operand_table,
            func == *t.func,
            table == t.operand_table@,
            lowered_operands(func, table, state, args@.take(i as int), nat_of(fuel)).result == Ok::<
                (),
                TranslationError,
            >(()),
            builder@ == code + lowered_operands(
                func,
                table,
                state,
                args@.take(i as int),
                nat_of(fuel),
            ).code,
            t@ == lowered_operands(func, table, state, args@.take(i as int), nat_of(fuel)).state,
        decreases args.len() - i,
    {
        assert(args@.take(i + 1).drop_last() == args@.take(i as int));
        let ghost before = lowered_operands(func, table, state, args@.take(i as int), nat_of(fuel));
        let ghost here = lowered_value(func, table, before.state, args@[i as int], nat_of(fuel));
        assert(lowered_operands(func, table, state, args@.take(i + 1), nat_of(fuel))
            == before.join(here));
        let r = translate_value(args[i], t, builder, can_branch_to, fuel);
        assert(builder@ =~= code + (before.code + here.code));
        if let Err(e) = r {
            proof {
                lemma_lowered_operands_prefix(func, table, state, args@, nat_of(fuel), i + 1);
            }
            return Err(e);
        }
        proof {
            lemma_ok_unit(r);
        }
        i += 1;
    }
    assert(args@.take(i as int) == args@);
    Ok(())
}

/// Hands the arguments of an edge of an instruction, which are its operands
/// from the one at `first` on, to the parameters of the destination.
#[verifier::loop_isolation(false)]
pub fn build_edge(
    inst: Inst,
    args: &Vec<Value>,
    first: usize,
    destination: Block,
    t: &mut IndividualFunctionTranslator<'_>,
    builder: &mut Vec<Instr>,
    can_branch_to: &CanBranchTo<'_>,
    fuel: usize,
) -> (r: Result<(), TranslationError>)
    requires
        first <= args@.len(),
    ensures
        final(t).func == old(t).func,
        final(t).operand_table == old(t).operand_table,
        final(builder)@ =~= old(builder)@ + lowered_edge_to(
            *old(t).func,
            old(t).operand_table@,
            old(t)@,
            inst,
            args@.skip(first as int),
            destination,
            nat_of(fuel),
        ).code,
        final(t)@ =~= lowered_edge_to(
            *old(t).func,
            old(t).operand_table@,
            old(t)@,
            inst,
            args@.skip(first as int),
            destination,
            nat_of(fuel),
        ).state,
        r == lowered_edge_to(
            *old(t).func,
            old(t).operand_table@,
            old(t)@,
            inst,
            args@.skip(first as int),
            destination,
            nat_of(fuel),
        ).result,
{
    let table_ref = t.operand_table;
    let params = match table_ref.block_params.get(&destination) {
        Some(params) => params,
        None => {
            return Ok(());
        },
    };
    if params.len() != args.len() - first {
        return Err(TranslationError::ArityMismatch(inst));
    }
    let ghost func = *t.func;
    let ghost table = t.operand_table@;
    let ghost state = t@;
    let ghost code = builder@;
    let ghost edge_args = args@.skip(first as int);
    let mut i: usize = 0;
    assert(edge_args.take(0) == Seq::<Value>::empty());
    assert(table.block_params[destination] == params@);
    while i < params.len()
        invariant
            i <= params.len(),
            first <= args@.len(),
            params@.len() == args@.len() - first,
            edge_args == args@.skip(first as int),
            t.func == old(t).func,
            t.operand_table == old(t).operand_table,
            func == *t.func,
            table == t.operand_table@,
            lowered_edge(
                func,
                table,
                state,
                edge_args.take(i as int),
                params@.take(i as int),
                nat_of(fuel),
            ).result == Ok::<(), TranslationError>(()),
            builder@ == code + lowered_edge(
                func,
                table,
                state,
                edge_args.take(i as int),
                params@.take(i as int),
                nat_of(fuel),
            ).code,
            t@ == lowered_edge(
                func,
                table,
                state,
                edge_args.take(i as int),
                params@.take(i as int),
                nat_of(fuel),
            ).state,
        decreases params.len() - i,
    {
        assert(edge_args.take(i + 1).drop_last() == edge_args.take(i as int));
        assert(params@.take(i + 1).drop_last() == params@.take(i as int));
        let ghost before = lowered_edge(
            func,
            table,
            state,
            edge_args.take(i as int),
            params@.take(i as int),
            nat_of(fuel),
        );
        let ghost here = lowered_value(func, table, before.state, edge_args[i as int], nat_of(fuel));
        assert(lowered_edge(
            func,
            table,
            state,
            edge_args.take(i + 1),
            params@.take(i + 1),
            nat_of(fuel),
        ) == before.join(here).emit(Instr::LocalSet(params@[i as int].1)));
        let r = translate_value(args[first + i], t, builder, can_branch_to, fuel);
        assert(builder@ =~= code + (before.code + here.code));
        if let Err(e) = r {
            proof {
                lemma_lowered_edge_prefix(func, table, state, edge_args, params@, nat_of(fuel), i + 1);
            }
            return Err(e);
        }
        proof {
            lemma_ok_unit(r);
        }
        builder.push(Instr::LocalSet(params[i].1));
        assert(builder@ =~= code + (before.code + here.code).push(
            Instr::LocalSet(params@[i as int].1),
        ));
        i += 1;
    }
    assert(edge_args.take(i as int) == edge_args);
    assert(params@.take(i as int) == params@);
    Ok(())
}


/// Appends the instructions that make the selector after the block choose
/// no arm.
fn push_skip_selector(builder: &mut Vec<Instr>, can_branch_to: &CanBranchTo<'_>)
    ensures
        final(builder)@ =~= old(builder)@ + skip_selector(can_branch_to@),
{
    if can_branch_to.locally_computed.len() > 0 {
        match can_branch_to.locally_computed[0].1 {
            BranchInstr::SetLocal(local) => {
                builder.push(Instr::I32Const(label_word_of(NO_ARM)));
                builder.push(Instr::LocalSet(local));
            },
        }
    }
}

/// Does an edge of this kind lead into a selector?
fn leads_into_selector(kind: Option<BranchMode>) -> (r: bool)
    ensures
        r == into_selector(kind),
{
    match kind {
        Some(BranchMode::LoopBreakIntoMulti(_)) => true,
        Some(BranchMode::LoopContinueIntoMulti(_)) => true,
        Some(BranchMode::MergedBranchIntoMulti) => true,
        Some(BranchMode::SetLabelAndBreak) => true,
        _ => false,
    }
}

/// The sequence that control branches to on an edge of a kind.
fn target_of(t: &IndividualFunctionTranslator<'_>, kind: Option<BranchMode>) -> (r: Result<
    Option<InstrSeqId>,
    TranslationError,
>)
    ensures
        r == branch_target(kind, t@.loop_to_block),
{
    let id = match kind {
        Some(BranchMode::LoopBreak(id)) => id,
        Some(BranchMode::LoopBreakIntoMulti(id)) => id,
        Some(BranchMode::LoopContinue(id)) => id,
        Some(BranchMode::LoopContinueIntoMulti(id)) => id,
        _ => {
            return Ok(None);
        },
    };
    let leaves = match kind {
        Some(BranchMode::LoopBreak(_)) => true,
        Some(BranchMode::LoopBreakIntoMulti(_)) => true,
        _ => false,
    };
    match t.loop_to_block.get(&id) {
        None => Err(TranslationError::MissingLoop(id)),
        Some(seq) => if leaves {
            Ok(Some(InstrSeqId::Exit(id)))
        } else {
            Ok(Some(*seq))
        },
    }
}

/// The instructions that transfer control on an unconditional edge.
fn realise_jump(
    t: &IndividualFunctionTranslator<'_>,
    can_branch_to: &CanBranchTo<'_>,
    destination: Block,
) -> (r: Result<Vec<Instr>, TranslationError>)
    ensures
        match jump_realisation(can_branch_to@, t@.loop_to_block, destination) {
            Ok(code) => r is Ok && r->Ok_0@ == code,
            Err(e) => r == Err::<Vec<Instr>, TranslationError>(e),
        },
{
    let mut code: Vec<Instr> = Vec::new();
    let kind = find(can_branch_to.from_relooper, destination);
    match find(&can_branch_to.locally_computed, destination) {
        Some(BranchInstr::SetLocal(local)) => {
            code.push(Instr::I32Const(label_word_of(destination)));
            code.push(Instr::LocalSet(local));
            if leads_into_selector(kind) {
                match target_of(t, kind)? {
                    Some(target) => code.push(Instr::Br(target)),
                    None => {},
                }
            }
        },
        None => {
            if leads_into_selector(kind) {
                return Err(TranslationError::UndispatchedBlock(destination));
            }
            match target_of(t, kind)? {
                Some(target) => code.push(Instr::Br(target)),
                None => {},
            }
        },
    }
    assert(code@ =~= jump_realisation(can_branch_to@, t@.loop_to_block, destination)->Ok_0);
    Ok(code)
}

/// Lowers an unconditional jump.
fn build_jump(
    inst: Inst,
    args: &Vec<Value>,
    destination: Block,
    t: &mut IndividualFunctionTranslator<'_>,
    builder: &mut Vec<Instr>,
    can_branch_to: &CanBranchTo<'_>,
    fuel: usize,
) -> (r: Result<(), TranslationError>)
    ensures
        final(t).func == old(t).func,
        final(t).operand_table == old(t).operand_table,
        final(builder)@ =~= old(builder)@ + lowered_jump(
            *old(t).func,
            old(t).operand_table@,
            old(t)@,
            can_branch_to@,
            inst,
            args@,
            destination,
            nat_of(fuel),
        ).code,
        final(t)@ =~= lowered_jump(
            *old(t).func,
            old(t).operand_table@,
            old(t)@,
            can_branch_to@,
            inst,
            args@,
            destination,
            nat_of(fuel),
        ).state,
        r == lowered_jump(
            *old(t).func,
            old(t).operand_table@,
            old(t)@,
            can_branch_to@,
            inst,
            args@,
            destination,
            nat_of(fuel),
        ).result,
{
    assert(args@.skip(0) == args@);
    build_edge(inst, args, 0, destination, t, builder, can_branch_to, fuel)?;
    let mut code = realise_jump(t, can_branch_to, destination)?;
    builder.append(&mut code);
    Ok(())
}

/// Appends the comparison with zero that turns a condition into a truth
/// value.
fn push_normalise(ty: Type, zero: bool, builder: &mut Vec<Instr>) -> (r: Result<
    (),
    TranslationError,
>)
    ensures
        match normalise(ty, zero) {
            Ok(code) => r == Ok::<(), TranslationError>(()) && final(builder)@ =~= old(
                builder,
            )@ + code,
            Err(e) => r == Err::<(), TranslationError>(e) && final(builder)@ == old(builder)@,
        },
{
    if ty.is_bool() {
        Ok(())
    } else if ty.bits() == 64 {
        builder.push(Instr::I64Const(0));
        builder.push(Instr::Binop(if zero { BinaryOp::I64Eq } else { BinaryOp::I64Ne }));
        Ok(())
    } else if ty.bits() <= 32 {
        builder.push(Instr::I32Const(0));
        builder.push(Instr::Binop(if zero { BinaryOp::I32Eq } else { BinaryOp::I32Ne }));
        Ok(())
    } else {
        Err(TranslationError::UnsupportedType(ty))
    }
}

/// Lowers what a conditional branch does before it transfers control.
fn build_branch_head(
    inst: Inst,
    opcode: Opcode,
    args: &Vec<Value>,
    destination: Block,
    t: &mut IndividualFunctionTranslator<'_>,
    builder: &mut Vec<Instr>,
    can_branch_to: &CanBranchTo<'_>,
    fuel: usize,
) -> (r: Result<(), TranslationError>)
    ensures
        final(t).func == old(t).func,
        final(t).operand_table == old(t).operand_table,
        final(builder)@ =~= old(builder)@ + lowered_branch_head(
            *old(t).func,
            old(t).operand_table@,
            old(t)@,
            inst,
            opcode,
            args@,
            destination,
            nat_of(fuel),
        ).code,
        final(t)@ =~= lowered_branch_head(
            *old(t).func,
            old(t).operand_table@,
            old(t)@,
            inst,
            opcode,
            args@,
            destination,
            nat_of(fuel),
        ).state,
        r == lowered_branch_head(
            *old(t).func,
            old(t).operand_table@,
            old(t)@,
            inst,
            opcode,
            args@,
            destination,
            nat_of(fuel),
        ).result,
{
    let zero = match opcode {
        Opcode::Brz => true,
        Opcode::Brnz => false,
        _ => {
            return Err(TranslationError::UnimplementedOpcode(opcode));
        },
    };
    if args.len() == 0 {
        return Err(TranslationError::MissingCondition(inst));
    }
    let func = t.func;
    build_edge(inst, args, 1, destination, t, builder, can_branch_to, fuel)?;
    translate_value(args[0], t, builder, can_branch_to, fuel)?;
    let ty = match type_of(func, args[0]) {
        Some(ty) => ty,
        None => {
            return Err(TranslationError::UnknownValue(args[0]));
        },
    };
    push_normalise(ty, zero, builder)
}

/// How control is transferred on a conditional edge.
fn realise_branch(
    t: &IndividualFunctionTranslator<'_>,
    can_branch_to: &CanBranchTo<'_>,
    destination: Block,
) -> (r: Result<(bool, Vec<Instr>), TranslationError>)
    ensures
        match branch_realisation(can_branch_to@, t@.loop_to_block, destination) {
            Ok((guard, code)) => r is Ok && r->Ok_0.0 == guard && r->Ok_0.1@ == code,
            Err(e) => r == Err::<(bool, Vec<Instr>), TranslationError>(e),
        },
{
    let mut code: Vec<Instr> = Vec::new();
    let mut guard = true;
    let kind = find(can_branch_to.from_relooper, destination);
    match find(&can_branch_to.locally_computed, destination) {
        Some(BranchInstr::SetLocal(local)) => {
            code.push(Instr::I32Const(label_word_of(destination)));
            code.push(Instr::LocalSet(local));
            if leads_into_selector(kind) {
                match target_of(t, kind)? {
                    Some(target) => code.push(Instr::Br(target)),
                    None => {},
                }
            }
        },
        None => {
            if leads_into_selector(kind) {
                return Err(TranslationError::UndispatchedBlock(destination));
            }
            match target_of(t, kind)? {
                Some(target) => {
                    guard = false;
                    code.push(Instr::BrIf(target));
                },
                None => {
                    if find(&can_branch_to.locally_computed, NO_ARM).is_some() {
                        return Err(TranslationError::ReservedBlock(NO_ARM));
                    }
                    push_skip_selector(&mut code, can_branch_to);
                },
            }
        },
    }
    assert(code@ =~= branch_realisation(can_branch_to@, t@.loop_to_block, destination)->Ok_0.1);
    Ok((guard, code))
}

/// Lowers a conditional branch at a position of a block, and the
/// instructions after it.
fn build_branch(
    t: &mut IndividualFunctionTranslator<'_>,
    builder: &mut Vec<Instr>,
    can_branch_to: &CanBranchTo<'_>,
    insts: &Vec<Inst>,
    pos: usize,
    opcode: Opcode,
    args: &Vec<Value>,
    destination: Block,
    fuel: usize,
) -> (r: Result<(), TranslationError>)
    requires
        pos < insts@.len(),
    ensures
        final(t).func == old(t).func,
        final(t).operand_table == old(t).operand_table,
        final(builder)@ =~= old(builder)@ + lowered_branch(
            *old(t).func,
            old(t).operand_table@,
            old(t)@,
            can_branch_to@,
            insts@,
            nat_of(pos),
            opcode,
            args@,
            destination,
            nat_of(fuel),
        ).code,
        final(t)@ =~= lowered_branch(
            *old(t).func,
            old(t).operand_table@,
            old(t)@,
            can_branch_to@,
            insts@,
            nat_of(pos),
            opcode,
            args@,
            destination,
            nat_of(fuel),
        ).state,
        r == lowered_branch(
            *old(t).func,
            old(t).operand_table@,
            old(t)@,
            can_branch_to@,
            insts@,
            nat_of(pos),
            opcode,
            args@,
            destination,
            nat_of(fuel),
        ).result,
    decreases insts@.len() - pos, 0nat,
{
    let count = insts.len();
    let ghost func = *t.func;
    let ghost table = t.operand_table@;
    let ghost code = builder@;
    let ghost head = lowered_branch_head(
        func,
        table,
        t@,
        insts@[pos as int],
        opcode,
        args@,
        destination,
        nat_of(fuel),
    );
    let ghost rest = lowered_block_from(
        func,
        table,
        head.state,
        can_branch_to@,
        insts@,
        nat_of(pos) + 1,
        nat_of(fuel),
    );
    build_branch_head(insts[pos], opcode, args, destination, t, builder, can_branch_to, fuel)?;
    proof {
        lemma_ok_unit(head.result);
    }
    let (guard, mut then) = realise_branch(t, can_branch_to, destination)?;
    let ghost arm = then@;
    if guard {
        builder.push(Instr::If);
        builder.append(&mut then);
        builder.push(Instr::Else);
        let ghost opened = emit_all(head.emit(Instr::If), arm).emit(Instr::Else);
        assert(builder@ =~= code + opened.code);
        let r = build_from_pos(t, builder, can_branch_to, insts, pos + 1, fuel);
        assert(builder@ =~= code + (opened.code + rest.code));
        if let Err(e) = r {
            return Err(e);
        }
        proof {
            lemma_ok_unit(r);
        }
        builder.push(Instr::End);
        assert(builder@ =~= code + (opened.code + rest.code).push(Instr::End));
        Ok(())
    } else {
        builder.append(&mut then);
        let ghost opened = emit_all(head, arm);
        assert(builder@ =~= code + opened.code);
        let r = build_from_pos(t, builder, can_branch_to, insts, pos + 1, fuel);
        assert(builder@ =~= code + (opened.code + rest.code));
        r
    }
}

/// Is the instruction lowered where its value is used, and not where it
/// stands?
fn deferred(entry: &InstData) -> (r: bool)
    ensures
        r == is_deferred(*entry),
{
    entry.results.len() > 0 && match &entry.data {
        InstructionData::UnaryImm { .. } => true,
        InstructionData::Binary { .. } => true,
        InstructionData::BinaryImm64 { .. } => true,
        InstructionData::IntCompare { .. } => true,
        InstructionData::IntCompareImm { .. } => true,
        _ => false,
    }
}

/// Lowers the instructions of a block from a position on, up to and with
/// the first instruction that transfers control.
///
/// What is appended to `builder`, how the tables change and whether the
/// lowering succeeds is given by [`lowered_block_from`].
#[verifier::loop_isolation(false)]
pub fn build_from_pos(
    t: &mut IndividualFunctionTranslator<'_>,
    builder: &mut Vec<Instr>,
    can_branch_to: &CanBranchTo<'_>,
    insts: &Vec<Inst>,
    pos: usize,
    fuel: usize,
) -> (r: Result<(), TranslationError>)
    ensures
        final(t).func == old(t).func,
        final(t).operand_table == old(t).operand_table,
        final(builder)@ =~= old(builder)@ + lowered_block_from(
            *old(t).func,
            old(t).operand_table@,
            old(t)@,
            can_branch_to@,
            insts@,
            nat_of(pos),
            nat_of(fuel),
        ).code,
        final(t)@ =~= lowered_block_from(
            *old(t).func,
            old(t).operand_table@,
            old(t)@,
            can_branch_to@,
            insts@,
            nat_of(pos),
            nat_of(fuel),
        ).state,
        r == lowered_block_from(
            *old(t).func,
            old(t).operand_table@,
            old(t)@,
            can_branch_to@,
            insts@,
            nat_of(pos),
            nat_of(fuel),
        ).result,
    decreases insts@.len() - pos, 1nat,
{
    let func = t.func;
    let ghost source = *t.func;
    let ghost table = t.operand_table@;
    let ghost code = builder@;
    let ghost total = lowered_block_from(
        source,
        table,
        t@,
        can_branch_to@,
        insts@,
        nat_of(pos),
        nat_of(fuel),
    );
    let mut at = pos;
    while at < insts.len()
        invariant
            pos <= at,
            t.func == old(t).func,
            t.operand_table == old(t).operand_table,
            code + total.code =~= builder@ + lowered_block_from(
                source,
                table,
                t@,
                can_branch_to@,
                insts@,
                nat_of(at),
                nat_of(fuel),
            ).code,
            total.state == lowered_block_from(
                source,
                table,
                t@,
                can_branch_to@,
                insts@,
                nat_of(at),
                nat_of(fuel),
            ).state,
            total.result == lowered_block_from(
                source,
                table,
                t@,
                can_branch_to@,
                insts@,
                nat_of(at),
                nat_of(fuel),
            ).result,
        decreases insts.len() - at,
    {
        let ghost before = builder@;
        let ghost rest = lowered_block_from(
            source,
            table,
            t@,
            can_branch_to@,
            insts@,
            nat_of(at),
            nat_of(fuel),
        );
        let inst = insts[at];
        let entry = match func.inst(inst) {
            Some(entry) => entry,
            None => {
                assert(builder@ =~= before + rest.code);
                return Err(TranslationError::UnknownInst(inst));
            },
        };
        match &entry.data {
            InstructionData::Jump { args, destination, .. } => {
                let r = build_jump(inst, args, *destination, t, builder, can_branch_to, fuel);
                assert(builder@ =~= before + rest.code);
                return r;
            },
            InstructionData::MultiAry { opcode, args } => {
                if *opcode != Opcode::Return {
                    assert(builder@ =~= before + rest.code);
                    return Err(TranslationError::UnimplementedOpcode(*opcode));
                }
                let r = build_operands(args, t, builder, can_branch_to, fuel);
                if let Err(e) = r {
                    assert(builder@ =~= before + rest.code);
                    return Err(e);
                }
                proof {
                    lemma_ok_unit(r);
                }
                builder.push(Instr::Return);
                assert(builder@ =~= before + rest.code);
                return Ok(());
            },
            InstructionData::Branch { opcode, args, destination } => {
                let r = build_branch(
                    t,
                    builder,
                    can_branch_to,
                    insts,
                    at,
                    *opcode,
                    args,
                    *destination,
                    fuel,
                );
                assert(builder@ =~= before + rest.code);
                return r;
            },
            _ => {
                if !deferred(entry) {
                    let ghost here = lowered_inst(source, table, t@, inst, nat_of(fuel));
                    let ghost after = lowered_block_from(
                        source,
                        table,
                        here.state,
                        can_branch_to@,
                        insts@,
                        nat_of(at) + 1,
                        nat_of(fuel),
                    );
                    assert(rest == here.join(after));
                    let r = build_wasm_inst(inst, t, builder, can_branch_to, fuel);
                    if let Err(e) = r {
                        assert(builder@ =~= before + rest.code);
                        return Err(e);
                    }
                    proof {
                        lemma_ok_unit(r);
                        assert(before + rest.code =~= builder@ + after.code);
                    }
                }
                at += 1;
            },
        }
    }
    proof {
        let rest = lowered_block_from(
            source,
            table,
            t@,
            can_branch_to@,
            insts@,
            nat_of(at),
            nat_of(fuel),
        );
        assert(builder@ + rest.code =~= builder@);
        lemma_ok_unit(rest.result);
    }
    Ok(())
}

/// Lowers a block of the function into target instructions, which are
/// appended to `builder`.
///
/// What is appended, how the tables change and whether the lowering succeeds
/// is given by [`lowered_block`].
pub fn build_wasm_block(
    block: Block,
    t: &mut IndividualFunctionTranslator<'_>,
    builder: &mut Vec<Instr>,
    can_branch_to: &CanBranchTo<'_>,
) -> (r: Result<(), TranslationError>)
    ensures
        final(t).func == old(t).func,
        final(t).operand_table == old(t).operand_table,
        final(builder)@ =~= old(builder)@ + lowered_block(
            *old(t).func,
            old(t).operand_table@,
            old(t)@,
            can_branch_to@,
            block,
        ).code,
        final(t)@ =~= lowered_block(
            *old(t).func,
            old(t).operand_table@,
            old(t)@,
            can_branch_to@,
            block,
        ).state,
        r == lowered_block(
            *old(t).func,
            old(t).operand_table@,
            old(t)@,
            can_branch_to@,
            block,
        ).result,
{
    let func = t.func;
    match find_block(func, block) {
        None => Err(TranslationError::UnknownBlock(block)),
        Some(data) => build_from_pos(t, builder, can_branch_to, &data.insts, 0, func.insts.len()),
    }
}

} // verus!
