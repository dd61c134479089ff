//! The translation of one function: its tables, and the driver that walks the
//! restructured control flow.

use std::collections::HashMap;
use vstd::prelude::*;

use crate::conversions::block::{
    build_wasm_block, lowered_block, BranchInstr, CanBranchTo, CanBranchToView,
};
use crate::emission::{lemma_ok_unit, Emission};
use crate::error::TranslationError;
use crate::ir::{branch_destination, Block, BlockData, SourceFunction, Inst, Value};
use crate::optable::{operand_table, param_local_types, OperandTable, OperandTableView};
use crate::graph::{graph_defect, live_input};
use crate::reach::{graph_view, live_graph, well_formed_graph};
use crate::shape::{
    arm_view, arm_views, entry_map, lemma_arm_views, next_view, shape_has_next, shape_view, HandledBlock,
    HandledView, LoopBlock, MultipleBlock, ShapeView, ShapedBlock, SimpleBlock, SimpleView,
};
use crate::target::{
    label_word, label_word_of, BinaryOp, Instr, InstrSeqId, LocalId, ModuleLocals, ValType,
};

verus! {

broadcast use vstd::std_specs::hash::group_hash_axioms;

/// Houses all the data structures needed to compile a function.
pub struct IndividualFunctionTranslator<'clif> {
    /// The locals allocated so far.
    pub module_locals: ModuleLocals,
    /// The function that is being translated.
    pub func: &'clif SourceFunction,
    /// The sequence to continue, for each loop that was opened.
    pub loop_to_block: HashMap<u16, InstrSeqId>,
    /// The roles of the values of the function.
    pub operand_table: &'clif OperandTable,
    /// The local of each value with several uses that was emitted already.
    pub locals: HashMap<Value, LocalId>,
}

/// The tables of a translation that change while it runs.
pub ghost struct TranslatorState {
    pub module_locals: Seq<ValType>,
    pub loop_to_block: Map<u16, InstrSeqId>,
    pub locals: Map<Value, LocalId>,
}

impl<'clif> View for IndividualFunctionTranslator<'clif> {
    type V = TranslatorState;

    open spec fn view(&self) -> TranslatorState {
        TranslatorState {
            module_locals: self.module_locals@,
            loop_to_block: self.loop_to_block@,
            locals: self.locals@,
        }
    }
}

impl<'clif> IndividualFunctionTranslator<'clif> {
    /// A translator for a function with its operand table, on top of the
    /// locals allocated so far. No loop is open and no value has a local.
    pub fn new(
        module_locals: ModuleLocals,
        func: &'clif SourceFunction,
        operand_table: &'clif OperandTable,
    ) -> (t: Self)
        ensures
            t.func == func,
            t.operand_table == operand_table,
            t@ == (TranslatorState {
                module_locals: module_locals@,
                loop_to_block: Map::empty(),
                locals: Map::empty(),
            }),
    {
        IndividualFunctionTranslator {
            module_locals,
            func,
            loop_to_block: HashMap::new(),
            operand_table,
            locals: HashMap::new(),
        }
    }
}


/// The destinations that a selector dispatches on, each with the write to
/// the selector's dispatch local: the labels of its arms, arm after arm.
pub open spec fn dispatch_entries(handled: Seq<HandledView>, local: LocalId) -> Seq<
    (u32, BranchInstr),
>
    decreases handled.len(),
{
    if handled.len() == 0 {
        Seq::empty()
    } else {
        dispatch_entries(handled.drop_last(), local) + handled.last().labels.map_values(
            |label: u32| (label, BranchInstr::SetLocal(local)),
        )
    }
}

/// The arms of the selector that a simple block runs into, if it runs into
/// one.
pub open spec fn immediate_selector(simple: SimpleView) -> Option<Seq<HandledView>> {
    match simple.immediate {
        Some(immediate) => match *immediate {
            ShapeView::Multiple(handled) => Some(handled),
            _ => None,
        },
        None => None,
    }
}

/// The instructions that guard an arm of a selector: they compare the
/// dispatch local with a label and open the arm.
pub open spec fn arm_guard(local: LocalId, label: u32) -> Seq<Instr> {
    seq![
        Instr::LocalGet(local),
        Instr::I32Const(label_word(label)),
        Instr::Binop(BinaryOp::I32Eq),
        Instr::If,
    ]
}

/// What is emitted for a shape of the restructured control flow.
///
/// - A simple block: where it runs into a selector, a fresh dispatch local of
///   32 bits is allocated, unless the machine cannot count one more local,
///   and every label of the selector is reached by a write to it. The block
///   is lowered, see [`lowered_block`], with the kinds of its edges and these
///   writes. Then comes the immediate shape, which gets the dispatch local
///   and is told whether a next shape exists, and then the next shape.
/// - A loop: a block and a loop in it are opened, the loop is recorded as
///   open, the body is lowered in it, and both are closed. Then comes the
///   next shape.
/// - A selector: it needs a dispatch local. For every arm and every label
///   of the arm, the guard on the label is emitted with the arm's shape as
///   its first arm and an empty second arm. If nothing comes next, a trap
///   follows the arms.
pub open spec fn lowered_shape(
    func: SourceFunction,
    table: OperandTableView,
    state: TranslatorState,
    shape: ShapeView,
    label: Option<LocalId>,
    next_exists: bool,
) -> Emission
    decreases shape, 0nat,
{
    match shape {
        ShapeView::Simple(simple) => if immediate_selector(simple) is Some
            && state.module_locals.len() >= usize::MAX {
            Emission::start(state).fail(TranslationError::TooManyLocals)
        } else {
            let dispatch = match immediate_selector(simple) {
                Some(_) => Some(state.module_locals.len() as usize),
                None => None,
            };
            let entered = match immediate_selector(simple) {
                Some(_) => TranslatorState {
                    module_locals: state.module_locals.push(ValType::I32),
                    ..state
                },
                None => state,
            };
            let cbt = CanBranchToView {
                from_relooper: simple.branches,
                locally_computed: match immediate_selector(simple) {
                    Some(handled) => dispatch_entries(handled, dispatch->Some_0),
                    None => Seq::empty(),
                },
            };
            let block = lowered_block(func, table, entered, cbt, simple.label);
            let inner = match simple.immediate {
                None => Emission::start(block.state),
                Some(immediate) => lowered_shape(
                    func,
                    table,
                    block.state,
                    *immediate,
                    dispatch,
                    simple.next is Some,
                ),
            };
            block.join(inner.join(lowered_next(func, table, inner.state, simple.next)))
        },
        ShapeView::Loop(l) => {
            let opened = Emission::start(
                TranslatorState {
                    loop_to_block: state.loop_to_block.insert(
                        l.loop_id,
                        InstrSeqId::Loop(l.loop_id),
                    ),
                    ..state
                },
            ).emit(Instr::Block(InstrSeqId::Exit(l.loop_id))).emit(
                Instr::Loop(InstrSeqId::Loop(l.loop_id)),
            );
            let body = opened.join(
                lowered_shape(func, table, opened.state, *l.inner, None, shape_has_next(*l.inner)),
            ).emit(Instr::End).emit(Instr::End);
            body.join(lowered_next(func, table, body.state, l.next))
        },
        ShapeView::Multiple(handled) => match label {
            None => Emission::start(state).fail(TranslationError::MissingDispatchLocal),
            Some(local) => {
                let arms = lowered_arms(func, table, state, handled, local, handled.len());
                if next_exists {
                    arms
                } else {
                    arms.emit(Instr::Unreachable)
                }
            },
        },
    }
}

/// What is emitted for the shape that comes next, if one does: it gets no
/// dispatch local.
pub open spec fn lowered_next(
    func: SourceFunction,
    table: OperandTableView,
    state: TranslatorState,
    next: Option<Box<ShapeView>>,
) -> Emission
    decreases next, 0nat,
{
    match next {
        None => Emission::start(state),
        Some(shape) => lowered_shape(func, table, state, *shape, None, shape_has_next(*shape)),
    }
}

/// What is emitted for the first `count` arms of a selector.
pub open spec fn lowered_arms(
    func: SourceFunction,
    table: OperandTableView,
    state: TranslatorState,
    handled: Seq<HandledView>,
    local: LocalId,
    count: nat,
) -> Emission
    decreases handled, count,
{
    if count == 0 || count > handled.len() {
        Emission::start(state)
    } else {
        let before = lowered_arms(func, table, state, handled, local, (count - 1) as nat);
        let arm = handled[count - 1];
        before.join(lowered_arm(func, table, before.state, arm, local, arm.labels.len()))
    }
}

/// What is emitted for the first `count` labels of an arm of a selector:
/// for each, the guard on the label around the shape of the arm.
pub open spec fn lowered_arm(
    func: SourceFunction,
    table: OperandTableView,
    state: TranslatorState,
    arm: HandledView,
    local: LocalId,
    count: nat,
) -> Emission
    decreases arm, count,
{
    if count == 0 || count > arm.labels.len() {
        Emission::start(state)
    } else {
        let before = lowered_arm(func, table, state, arm, local, (count - 1) as nat);
        let guard = Emission { code: before.code + arm_guard(local, arm.labels[count - 1]), ..before };
        if before.is_ok() {
            guard.join(
                lowered_shape(
                    func,
                    table,
                    guard.state,
                    *arm.inner,
                    None,
                    shape_has_next(*arm.inner),
                ),
            ).emit(Instr::Else).emit(Instr::End)
        } else {
            before
        }
    }
}

/// Is something to run after this shape, within the same sequence?
pub fn has_next(shaped: &ShapedBlock) -> (r: bool)
    ensures
        r == shape_has_next(shape_view(*shaped)),
{
    match shaped {
        ShapedBlock::Simple(s) => s.next.is_some(),
        ShapedBlock::Loop(l) => l.next.is_some(),
        ShapedBlock::Multiple(_) => false,
    }
}

proof fn lemma_lowered_arms_prefix(
    func: SourceFunction,
    table: OperandTableView,
    state: TranslatorState,
    handled: Seq<HandledView>,
    local: LocalId,
    done: nat,
    count: nat,
)
    requires
        done <= count <= handled.len(),
        !lowered_arms(func, table, state, handled, local, done).is_ok(),
    ensures
        lowered_arms(func, table, state, handled, local, count) == lowered_arms(
            func,
            table,
            state,
            handled,
            local,
            done,
        ),
    decreases count,
{
    if done < count {
        lemma_lowered_arms_prefix(func, table, state, handled, local, done, (count - 1) as nat);
    }
}

proof fn lemma_lowered_arm_prefix(
    func: SourceFunction,
    table: OperandTableView,
    state: TranslatorState,
    arm: HandledView,
    local: LocalId,
    done: nat,
    count: nat,
)
    requires
        done <= count <= arm.labels.len(),
        !lowered_arm(func, table, state, arm, local, done).is_ok(),
    ensures
        lowered_arm(func, table, state, arm, local, count) == lowered_arm(
            func,
            table,
            state,
            arm,
            local,
            done,
        ),
    decreases count,
{
    if done < count {
        lemma_lowered_arm_prefix(func, table, state, arm, local, done, (count - 1) as nat);
    }
}

/// The selector that a simple block runs into, if it runs into one.
fn selector_of(simple: &SimpleBlock) -> (r: Option<&MultipleBlock>)
    ensures
        match r {
            Some(m) => immediate_selector(shape_view(ShapedBlock::Simple(*simple))->Simple_0)
                == Some(arm_views(*m, m.handled.len() as nat)),
            None => immediate_selector(shape_view(ShapedBlock::Simple(*simple))->Simple_0) is None,
        },
{
    reveal_with_fuel(shape_view, 2);
    match &simple.immediate {
        Some(immediate) => match &**immediate {
            ShapedBlock::Multiple(m) => Some(m),
            _ => None,
        },
        None => None,
    }
}

/// The writes by which the labels of a selector are reached.
#[verifier::loop_isolation(false)]
fn dispatch_table(m: &MultipleBlock, local: LocalId) -> (r: Vec<(u32, BranchInstr)>)
    ensures
        r@ == dispatch_entries(arm_views(*m, m.handled.len() as nat), local),
{
    let ghost views = arm_views(*m, m.handled.len() as nat);
    proof {
        lemma_arm_views(*m, m.handled.len() as nat);
    }
    let mut entries: Vec<(u32, BranchInstr)> = Vec::new();
    let mut k: usize = 0;
    assert(views.take(0) == Seq::<HandledView>::empty());
    while k < m.handled.len()
        invariant
            k <= m.handled.len(),
            entries@ == dispatch_entries(views.take(k as int), local),
        decreases m.handled.len() - k,
    {
        let arm = &m.handled[k];
        let ghost before = entries@;
        let ghost row = arm.labels@.map_values(|label: u32| (label, BranchInstr::SetLocal(local)));
        let mut j: usize = 0;
        while j < arm.labels.len()
            invariant
                j <= arm.labels.len(),
                entries@ == before + row.take(j as int),
            decreases arm.labels.len() - j,
        {
            entries.push((arm.labels[j], BranchInstr::SetLocal(local)));
            assert(row.take(j + 1) == row.take(j as int).push(row[j as int]));
            j += 1;
        }
        assert(row.take(j as int) == row);
        assert(views.take(k + 1).drop_last() == views.take(k as int));
        assert(views.take(k + 1).last() == arm_view(*arm));
        k += 1;
    }
    assert(views.take(k as int) == views);
    entries
}

impl<'clif> IndividualFunctionTranslator<'clif> {
    /// Lowers a shape of the restructured control flow into target
    /// instructions, which are appended to `builder`.
    ///
    /// `label` is the dispatch local, if the shape is the selector that a
    /// simple block runs into; `next_exists` says whether that simple block
    /// has a next shape. What is appended, how the tables change and whether
    /// the lowering succeeds is given by [`lowered_shape`].
    pub fn compile_structured(
        &mut self,
        builder: &mut Vec<Instr>,
        structured: &ShapedBlock,
        label: Option<LocalId>,
        next_exists: bool,
    ) -> (r: Result<(), TranslationError>)
        ensures
            final(self).func == old(self).func,
            final(self).operand_table == old(self).operand_table,
            final(builder)@ =~= old(builder)@ + lowered_shape(
                *old(self).func,
                old(self).operand_table@,
                old(self)@,
                shape_view(*structured),
                label,
                next_exists,
            ).code,
            final(self)@ =~= lowered_shape(
                *old(self).func,
                old(self).operand_table@,
                old(self)@,
                shape_view(*structured),
                label,
                next_exists,
            ).state,
            r == lowered_shape(
                *old(self).func,
                old(self).operand_table@,
                old(self)@,
                shape_view(*structured),
                label,
                next_exists,
            ).result,
        decreases structured, 2nat,
    {
        match structured {
            ShapedBlock::Simple(simple) => self.compile_simple(builder, simple),
            ShapedBlock::Loop(l) => self.compile_loop(builder, l),
            ShapedBlock::Multiple(m) => {
                let local = match label {
                    Some(local) => local,
                    None => {
                        return Err(TranslationError::MissingDispatchLocal);
                    },
                };
                proof {
                    lemma_arm_views(*m, m.handled.len() as nat);
                }
                self.compile_arms(builder, m, local)?;
                if !next_exists {
                    builder.push(Instr::Unreachable);
                }
                Ok(())
            },
        }
    }

    /// Lowers a simple block and what follows it.
    fn compile_simple(&mut self, builder: &mut Vec<Instr>, simple: &SimpleBlock) -> (r: Result<
        (),
        TranslationError,
    >)
        ensures
            final(self).func == old(self).func,
            final(self).operand_table == old(self).operand_table,
            final(builder)@ =~= old(builder)@ + lowered_shape(
                *old(self).func,
                old(self).operand_table@,
                old(self)@,
                shape_view(ShapedBlock::Simple(*simple)),
                None,
                false,
            ).code,
            final(self)@ =~= lowered_shape(
                *old(self).func,
                old(self).operand_table@,
                old(self)@,
                shape_view(ShapedBlock::Simple(*simple)),
                None,
                false,
            ).state,
            r == lowered_shape(
                *old(self).func,
                old(self).operand_table@,
                old(self)@,
                shape_view(ShapedBlock::Simple(*simple)),
                None,
                false,
            ).result,
        decreases simple, 1nat,
    {
        let ghost func = *self.func;
        let ghost table = self.operand_table@;
        let ghost code = builder@;
        let ghost view = shape_view(ShapedBlock::Simple(*simple))->Simple_0;
        assert(view.next == next_view(simple.next));
        assert(view.immediate == next_view(simple.immediate));
        assert(view.branches == entry_map(simple.branches@));
        assert(view.label == simple.label);
        let mut dispatch: Option<LocalId> = None;
        let mut locally_computed: Vec<(u32, BranchInstr)> = Vec::new();
        match selector_of(simple) {
            Some(m) => {
                if self.module_locals.len() == usize::MAX {
                    return Err(TranslationError::TooManyLocals);
                }
                let local = self.module_locals.add(ValType::I32);
                locally_computed = dispatch_table(m, local);
                dispatch = Some(local);
            },
            None => {},
        }
        let can_branch_to = CanBranchTo { from_relooper: &simple.branches, locally_computed };
        let ghost block = lowered_block(func, table, self@, can_branch_to@, simple.label);
        build_wasm_block(simple.label, self, builder, &can_branch_to)?;
        proof {
            lemma_ok_unit(block.result);
        }
        let ghost inner = match view.immediate {
            None => Emission::start(block.state),
            Some(immediate) => lowered_shape(
                func,
                table,
                block.state,
                *immediate,
                dispatch,
                view.next is Some,
            ),
        };
        match &simple.immediate {
            Some(immediate) => {
                let r = self.compile_structured(
                    builder,
                    immediate,
                    dispatch,
                    simple.next.is_some(),
                );
                assert(builder@ =~= code + (block.code + inner.code));
                if let Err(e) = r {
                    return Err(e);
                }
                proof {
                    lemma_ok_unit(r);
                }
            },
            None => {},
        }
        assert(builder@ =~= code + (block.code + inner.code));
        let ghost last = lowered_next(func, table, inner.state, view.next);
        let r = self.compile_next(builder, &simple.next);
        assert(builder@ =~= code + (block.code + (inner.code + last.code)));
        r
    }

    /// Lowers the shape that comes next, if one does.
    fn compile_next(&mut self, builder: &mut Vec<Instr>, next: &Option<Box<ShapedBlock>>) -> (r:
        Result<(), TranslationError>)
        ensures
            final(self).func == old(self).func,
            final(self).operand_table == old(self).operand_table,
            final(builder)@ =~= old(builder)@ + lowered_next(
                *old(self).func,
                old(self).operand_table@,
                old(self)@,
                next_view(*next),
            ).code,
            final(self)@ =~= lowered_next(
                *old(self).func,
                old(self).operand_table@,
                old(self)@,
                next_view(*next),
            ).state,
            r == lowered_next(
                *old(self).func,
                old(self).operand_table@,
                old(self)@,
                next_view(*next),
            ).result,
        decreases next, 0nat,
    {
        match next {
            Some(shape) => self.compile_structured(builder, shape, None, has_next(shape)),
            None => Ok(()),
        }
    }

    /// Lowers a loop and what follows it.
    fn compile_loop(&mut self, builder: &mut Vec<Instr>, l: &LoopBlock) -> (r: Result<
        (),
        TranslationError,
    >)
        ensures
            final(self).func == old(self).func,
            final(self).operand_table == old(self).operand_table,
            final(builder)@ =~= old(builder)@ + lowered_shape(
                *old(self).func,
                old(self).operand_table@,
                old(self)@,
                shape_view(ShapedBlock::Loop(*l)),
                None,
                false,
            ).code,
            final(self)@ =~= lowered_shape(
                *old(self).func,
                old(self).operand_table@,
                old(self)@,
                shape_view(ShapedBlock::Loop(*l)),
                None,
                false,
            ).state,
            r == lowered_shape(
                *old(self).func,
                old(self).operand_table@,
                old(self)@,
                shape_view(ShapedBlock::Loop(*l)),
                None,
                false,
            ).result,
        decreases l, 1nat,
    {
        let ghost func = *self.func;
        let ghost table = self.operand_table@;
        let ghost code = builder@;
        let ghost view = shape_view(ShapedBlock::Loop(*l))->Loop_0;
        assert(view.next == next_view(l.next));
        assert(*view.inner == shape_view(*l.inner));
        let ghost opened = Emission::start(
            TranslatorState {
                loop_to_block: self@.loop_to_block.insert(l.loop_id, InstrSeqId::Loop(l.loop_id)),
                ..self@
            },
        ).emit(Instr::Block(InstrSeqId::Exit(l.loop_id))).emit(
            Instr::Loop(InstrSeqId::Loop(l.loop_id)),
        );
        builder.push(Instr::Block(InstrSeqId::Exit(l.loop_id)));
        builder.push(Instr::Loop(InstrSeqId::Loop(l.loop_id)));
        self.loop_to_block.insert(l.loop_id, InstrSeqId::Loop(l.loop_id));
        assert(self@ == opened.state);
        assert(builder@ =~= code + opened.code);
        let ghost inner = lowered_shape(
            func,
            table,
            opened.state,
            *view.inner,
            None,
            shape_has_next(*view.inner),
        );
        let r = self.compile_structured(builder, &l.inner, None, has_next(&l.inner));
        assert(builder@ =~= code + (opened.code + inner.code));
        if let Err(e) = r {
            return Err(e);
        }
        proof {
            lemma_ok_unit(r);
        }
        builder.push(Instr::End);
        builder.push(Instr::End);
        let ghost body = opened.join(inner).emit(Instr::End).emit(Instr::End);
        assert(builder@ =~= code + body.code);
        let ghost last = lowered_next(func, table, body.state, view.next);
        let r = self.compile_next(builder, &l.next);
        assert(builder@ =~= code + (body.code + last.code));
        r
    }

    /// Lowers the arms of a selector that dispatches on a local.
    #[verifier::loop_isolation(false)]
    fn compile_arms(
        &mut self,
        builder: &mut Vec<Instr>,
        m: &MultipleBlock,
        local: LocalId,
    ) -> (r: Result<(), TranslationError>)
        ensures
            final(self).func == old(self).func,
            final(self).operand_table == old(self).operand_table,
            final(builder)@ =~= old(builder)@ + lowered_arms(
                *old(self).func,
                old(self).operand_table@,
                old(self)@,
                arm_views(*m, m.handled.len() as nat),
                local,
                m.handled.len() as nat,
            ).code,
            final(self)@ =~= lowered_arms(
                *old(self).func,
                old(self).operand_table@,
                old(self)@,
                arm_views(*m, m.handled.len() as nat),
                local,
                m.handled.len() as nat,
            ).state,
            r == lowered_arms(
                *old(self).func,
                old(self).operand_table@,
                old(self)@,
                arm_views(*m, m.handled.len() as nat),
                local,
                m.handled.len() as nat,
            ).result,
        decreases m, 1nat,
    {
        let ghost func = *self.func;
        let ghost table = self.operand_table@;
        let ghost state = self@;
        let ghost code = builder@;
        let ghost views = arm_views(*m, m.handled.len() as nat);
        proof {
            lemma_arm_views(*m, m.handled.len() as nat);
        }
        let mut k: usize = 0;
        while k < m.handled.len()
            invariant
                k <= m.handled.len(),
                self.func == old(self).func,
                self.operand_table == old(self).operand_table,
                lowered_arms(func, table, state, views, local, k as nat).result == Ok::<
                    (),
                    TranslationError,
                >(()),
                builder@ == code + lowered_arms(func, table, state, views, local, k as nat).code,
                self@ == lowered_arms(func, table, state, views, local, k as nat).state,
            decreases m.handled.len() - k,
        {
            let ghost before = lowered_arms(func, table, state, views, local, k as nat);
            let arm = &m.handled[k];
            assert(views[k as int] == arm_view(*arm));
            let ghost here = lowered_arm(
                func,
                table,
                before.state,
                arm_view(*arm),
                local,
                arm.labels.len() as nat,
            );
            assert(lowered_arms(func, table, state, views, local, (k + 1) as nat) == before.join(
                here,
            ));
            let r = self.compile_arm(builder, arm, local);
            assert(builder@ =~= code + (before.code + here.code));
            if let Err(e) = r {
                proof {
                    lemma_lowered_arms_prefix(
                        func,
                        table,
                        state,
                        views,
                        local,
                        (k + 1) as nat,
                        m.handled.len() as nat,
                    );
                }
                return Err(e);
            }
            proof {
                lemma_ok_unit(r);
            }
            k += 1;
        }
        Ok(())
    }

    /// Lowers an arm of a selector, once for each of its labels.
    #[verifier::loop_isolation(false)]
    fn compile_arm(
        &mut self,
        builder: &mut Vec<Instr>,
        arm: &HandledBlock,
        local: LocalId,
    ) -> (r: Result<(), TranslationError>)
        ensures
            final(self).func == old(self).func,
            final(self).operand_table == old(self).operand_table,
            final(builder)@ =~= old(builder)@ + lowered_arm(
                *old(self).func,
                old(self).operand_table@,
                old(self)@,
                arm_view(*arm),
                local,
                arm.labels.len() as nat,
            ).code,
            final(self)@ =~= lowered_arm(
                *old(self).func,
                old(self).operand_table@,
                old(self)@,
                arm_view(*arm),
                local,
                arm.labels.len() as nat,
            ).state,
            r == lowered_arm(
                *old(self).func,
                old(self).operand_table@,
                old(self)@,
                arm_view(*arm),
                local,
                arm.labels.len() as nat,
            ).result,
        decreases arm, 1nat,
    {
        let ghost func = *self.func;
        let ghost table = self.operand_table@;
        let ghost state = self@;
        let ghost code = builder@;
        let ghost view = arm_view(*arm);
        let mut j: usize = 0;
        while j < arm.labels.len()
            invariant
                j <= arm.labels.len(),
                self.func == old(self).func,
                self.operand_table == old(self).operand_table,
                lowered_arm(func, table, state, view, local, j as nat).result == Ok::<
                    (),
                    TranslationError,
                >(()),
                builder@ == code + lowered_arm(func, table, state, view, local, j as nat).code,
                self@ == lowered_arm(func, table, state, view, local, j as nat).state,
            decreases arm.labels.len() - j,
        {
            let ghost before = lowered_arm(func, table, state, view, local, j as nat);
            let ghost guard = Emission {
                code: before.code + arm_guard(local, arm.labels[j as int]),
                ..before
            };
            let ghost inner = lowered_shape(
                func,
                table,
                guard.state,
                shape_view(arm.inner),
                None,
                shape_has_next(shape_view(arm.inner)),
            );
            assert(lowered_arm(func, table, state, view, local, (j + 1) as nat) == guard.join(
                inner,
            ).emit(Instr::Else).emit(Instr::End));
            builder.push(Instr::LocalGet(local));
            builder.push(Instr::I32Const(label_word_of(arm.labels[j])));
            builder.push(Instr::Binop(BinaryOp::I32Eq));
            builder.push(Instr::If);
            assert(builder@ =~= code + guard.code);
            let r = self.compile_structured(builder, &arm.inner, None, has_next(&arm.inner));
            assert(builder@ =~= code + (guard.code + inner.code));
            if let Err(e) = r {
                proof {
                    lemma_lowered_arm_prefix(
                        func,
                        table,
                        state,
                        view,
                        local,
                        (j + 1) as nat,
                        arm.labels.len() as nat,
                    );
                }
                return Err(e);
            }
            proof {
                lemma_ok_unit(r);
            }
            builder.push(Instr::Else);
            builder.push(Instr::End);
            assert(builder@ =~= code + (guard.code + inner.code).push(Instr::Else).push(
                Instr::End,
            ));
            j += 1;
        }
        Ok(())
    }
}


/// The blocks that the instructions of a list may transfer control to, in
/// the order of the instructions, or the first instruction of the list that
/// the function does not define.
pub open spec fn successors(func: SourceFunction, insts: Seq<Inst>) -> Result<
    Seq<Block>,
    TranslationError,
>
    decreases insts.len(),
{
    if insts.len() == 0 {
        Ok(Seq::empty())
    } else {
        match successors(func, insts.drop_last()) {
            Err(e) => Err(e),
            Ok(blocks) => match func.spec_inst(insts.last()) {
                None => Err(TranslationError::UnknownInst(insts.last())),
                Some(entry) => match branch_destination(entry.data) {
                    Some(block) => Ok(blocks.push(block)),
                    None => Ok(blocks),
                },
            },
        }
    }
}

/// The control-flow graph of a layout: each block with its successors, in
/// layout order.
pub open spec fn control_flow_graph(func: SourceFunction, layout: Seq<BlockData>) -> Result<
    Seq<(u32, Seq<u32>)>,
    TranslationError,
>
    decreases layout.len(),
{
    if layout.len() == 0 {
        Ok(Seq::empty())
    } else {
        match control_flow_graph(func, layout.drop_last()) {
            Err(e) => Err(e),
            Ok(graph) => match successors(func, layout.last().insts@) {
                Err(e) => Err(e),
                Ok(blocks) => Ok(graph.push((layout.last().block, blocks))),
            },
        }
    }
}

proof fn lemma_successors_prefix(func: SourceFunction, insts: Seq<Inst>, n: int)
    requires
        0 <= n <= insts.len(),
        successors(func, insts.take(n)) is Err,
    ensures
        successors(func, insts) == successors(func, insts.take(n)),
    decreases insts.len(),
{
    if n < insts.len() {
        assert(insts.drop_last().take(n) == insts.take(n));
        lemma_successors_prefix(func, insts.drop_last(), n);
    } else {
        assert(insts.take(n) == insts);
    }
}

proof fn lemma_control_flow_graph_prefix(func: SourceFunction, layout: Seq<BlockData>, n: int)
    requires
        0 <= n <= layout.len(),
        control_flow_graph(func, layout.take(n)) is Err,
    ensures
        control_flow_graph(func, layout) == control_flow_graph(func, layout.take(n)),
    decreases layout.len(),
{
    if n < layout.len() {
        assert(layout.drop_last().take(n) == layout.take(n));
        lemma_control_flow_graph_prefix(func, layout.drop_last(), n);
    } else {
        assert(layout.take(n) == layout);
    }
}

/// The blocks that the instructions of a list may transfer control to.
#[verifier::loop_isolation(false)]
fn collect_successors(func: &SourceFunction, insts: &Vec<Inst>) -> (r: Result<
    Vec<Block>,
    TranslationError,
>)
    ensures
        match successors(*func, insts@) {
            Ok(blocks) => r is Ok && r->Ok_0@ == blocks,
            Err(e) => r == Err::<Vec<Block>, TranslationError>(e),
        },
{
    let mut blocks: Vec<Block> = Vec::new();
    let mut i: usize = 0;
    assert(insts@.take(0) == Seq::<Inst>::empty());
    while i < insts.len()
        invariant
            i <= insts.len(),
            successors(*func, insts@.take(i as int)) == Ok::<Seq<Block>, TranslationError>(blocks@),
        decreases insts.len() - i,
    {
        assert(insts@.take(i + 1).drop_last() == insts@.take(i as int));
        match func.inst(insts[i]) {
            None => {
                proof {
                    lemma_successors_prefix(*func, insts@, i + 1);
                }
                return Err(TranslationError::UnknownInst(insts[i]));
            },
            Some(entry) => match entry.data.destination() {
                Some(block) => blocks.push(block),
                None => {},
            },
        }
        i += 1;
    }
    assert(insts@.take(i as int) == insts@);
    Ok(blocks)
}

/// The control-flow graph of a function: each block of the layout with its
/// successors.
#[verifier::loop_isolation(false)]
pub fn relooper_input(func: &SourceFunction) -> (r: Result<Vec<(u32, Vec<u32>)>, TranslationError>)
    ensures
        match control_flow_graph(*func, func.layout@) {
            Ok(graph) => r is Ok && graph_view(r->Ok_0@) == graph,
            Err(e) => r == Err::<Vec<(u32, Vec<u32>)>, TranslationError>(e),
        },
{
    let mut graph: Vec<(u32, Vec<u32>)> = Vec::new();
    let mut b: usize = 0;
    assert(func.layout@.take(0) == Seq::<BlockData>::empty());
    assert(graph_view(graph@) =~= Seq::<(u32, Seq<u32>)>::empty());
    while b < func.layout.len()
        invariant
            b <= func.layout.len(),
            control_flow_graph(*func, func.layout@.take(b as int)) == Ok::<
                Seq<(u32, Seq<u32>)>,
                TranslationError,
            >(graph_view(graph@)),
        decreases func.layout.len() - b,
    {
        assert(func.layout@.take(b + 1).drop_last() == func.layout@.take(b as int));
        let ghost before = graph_view(graph@);
        let block = &func.layout[b];
        match collect_successors(func, &block.insts) {
            Err(e) => {
                proof {
                    lemma_control_flow_graph_prefix(*func, func.layout@, b + 1);
                }
                return Err(e);
            },
            Ok(blocks) => {
                let ghost row = (block.block, blocks@);
                graph.push((block.block, blocks));
                assert(graph_view(graph@) =~= before.push(row));
            },
        }
        b += 1;
    }
    assert(func.layout@.take(b as int) == func.layout@);
    Ok(graph)
}

/// The graph that is restructured for a function, with the label of its
/// first block: the blocks of the control-flow graph of the layout, see
/// [`control_flow_graph`], that can be reached from the first block of the
/// layout, see [`live_graph`]. A failure of the control-flow graph, or else
/// the first defect of the graph, see [`graph_defect`], is the failure.
pub open spec fn shaping_graph(func: SourceFunction) -> Result<
    (Seq<(u32, Seq<u32>)>, u32),
    TranslationError,
> {
    match control_flow_graph(func, func.layout@) {
        Err(e) => Err(e),
        Ok(graph) => match graph_defect(graph, entry_label(graph)) {
            Some(e) => Err(e),
            None => Ok((live_graph(graph, entry_label(graph)), entry_label(graph))),
        },
    }
}

/// Computes the graph that is to be restructured for a function, and the
/// label of its first block, see [`shaping_graph`]. The graph has a block, is
/// in ascending order of its labels, names no block that it does not hold,
/// and each of its blocks can be reached from the first.
pub fn shaping_input(func: &SourceFunction) -> (r: Result<
    (Vec<(u32, Vec<u32>)>, u32),
    TranslationError,
>)
    ensures
        match shaping_graph(*func) {
            Ok(input) => r is Ok && graph_view(r->Ok_0.0@) == input.0 && r->Ok_0.1 == input.1
                && well_formed_graph(input.0, input.1),
            Err(e) => r == Err::<(Vec<(u32, Vec<u32>)>, u32), TranslationError>(e),
        },
{
    let graph = relooper_input(func)?;
    let first = if graph.len() > 0 {
        graph[0].0
    } else {
        0
    };
    assert(first == entry_label(graph_view(graph@)));
    let live = live_input(graph, first)?;
    Ok((live, first))
}

/// A translated function.
#[derive(Debug, PartialEq, Eq)]
pub struct FunctionBody {
    /// The type of each local of the function.
    pub locals: Vec<ValType>,
    /// The locals that receive the arguments of the function, in order: those
    /// of the parameters of the entry block.
    pub args: Vec<LocalId>,
    /// The instructions of the body.
    pub instrs: Vec<Instr>,
}

/// The mathematical content of a [`FunctionBody`].
pub ghost struct FunctionBodyView {
    pub locals: Seq<ValType>,
    pub args: Seq<LocalId>,
    pub instrs: Seq<Instr>,
}

impl View for FunctionBody {
    type V = FunctionBodyView;

    open spec fn view(&self) -> FunctionBodyView {
        FunctionBodyView { locals: self.locals@, args: self.args@, instrs: self.instrs@ }
    }
}

/// The locals of a list of parameters with their locals.
pub open spec fn param_locals(params: Seq<(Value, LocalId)>) -> Seq<LocalId> {
    params.map_values(|p: (Value, LocalId)| p.1)
}

/// The label of the entry block of a graph.
pub open spec fn entry_label(graph: Seq<(u32, Seq<u32>)>) -> u32 {
    if graph.len() > 0 {
        graph[0].0
    } else {
        0
    }
}

/// The tables at the start of the lowering of a function: the locals of the
/// block parameters are allocated, no loop is open, and no value has a local.
pub open spec fn initial_state(func: SourceFunction) -> TranslatorState {
    TranslatorState {
        module_locals: param_local_types(func),
        loop_to_block: Map::empty(),
        locals: Map::empty(),
    }
}

/// What is emitted for a function whose control flow has the given shape:
/// the lowering of the shape, see [`lowered_shape`], with the operand table of
/// the function, see [`operand_table`], from the initial tables.
pub open spec fn lowering(func: SourceFunction, shape: ShapeView) -> Emission {
    lowered_shape(
        func,
        operand_table(func, 0)->Ok_0,
        initial_state(func),
        shape,
        None,
        shape_has_next(shape),
    )
}

/// The locals that receive the arguments of a function: those of the
/// parameters of the first block of the layout.
pub open spec fn argument_locals(func: SourceFunction, table: OperandTableView) -> Seq<LocalId> {
    if func.layout@.len() > 0 && table.block_params.contains_key(func.layout@[0].block) {
        param_locals(table.block_params[func.layout@[0].block])
    } else {
        Seq::empty()
    }
}

/// The translation of a function whose control flow has the given shape.
///
/// The operand table is computed on no locals, see [`operand_table`], which
/// gives every block parameter its local. The shape is lowered, see
/// [`lowering`], and a trap ends the body. The arguments of the function
/// arrive in the locals of the parameters of the entry block.
///
/// A failure of the operand table, or else of the lowering, is the failure of
/// the translation.
pub open spec fn shaped_translation(func: SourceFunction, shape: ShapeView) -> Result<
    FunctionBodyView,
    TranslationError,
> {
    match operand_table(func, 0) {
        Err(e) => Err(e),
        Ok(table) => {
            let lowered = lowering(func, shape);
            match lowered.result {
                Err(e) => Err(e),
                Ok(_) => Ok(
                    FunctionBodyView {
                        locals: lowered.state.module_locals,
                        args: argument_locals(func, table),
                        instrs: lowered.code.push(Instr::Unreachable),
                    },
                ),
            }
        },
    }
}

/// The locals of a list of parameters with their locals.
#[verifier::loop_isolation(false)]
fn locals_of(params: &Vec<(Value, LocalId)>) -> (r: Vec<LocalId>)
    ensures
        r@ == param_locals(params@),
{
    let mut locals: Vec<LocalId> = Vec::new();
    let mut i: usize = 0;
    while i < params.len()
        invariant
            i <= params.len(),
            locals@ == param_locals(params@).take(i as int),
        decreases params.len() - i,
    {
        locals.push(params[i].1);
        assert(param_locals(params@).take(i + 1) == param_locals(params@).take(i as int).push(
            params@[i as int].1,
        ));
        i += 1;
    }
    assert(param_locals(params@).take(i as int) == param_locals(params@));
    locals
}

/// Translates a function whose control flow has the given shape into its
/// locals and the instructions of its body.
pub fn translate_shape(func: &SourceFunction, structured: &ShapedBlock) -> (r: Result<
    FunctionBody,
    TranslationError,
>)
    ensures
        match shaped_translation(*func, shape_view(*structured)) {
            Ok(body) => r is Ok && r->Ok_0@ == body,
            Err(e) => r == Err::<FunctionBody, TranslationError>(e),
        },
{
    let mut module_locals = ModuleLocals::new();
    let operand_table = OperandTable::fill(func, &mut module_locals)?;
    assert(module_locals@ =~= param_local_types(*func));
    let mut translator = IndividualFunctionTranslator::new(module_locals, func, &operand_table);
    let mut builder: Vec<Instr> = Vec::new();
    translator.compile_structured(&mut builder, structured, None, has_next(structured))?;
    builder.push(Instr::Unreachable);
    let mut args: Vec<LocalId> = Vec::new();
    if func.layout.len() > 0 {
        match operand_table.block_params.get(&func.layout[0].block) {
            Some(params) => {
                args = locals_of(params);
            },
            None => {},
        }
    }
    proof {
        let body = shaped_translation(*func, shape_view(*structured))->Ok_0;
        assert(builder@ =~= body.instrs);
        assert(args@ =~= body.args);
    }
    Ok(FunctionBody { locals: translator.module_locals.types, args, instrs: builder })
}

} // verus!
