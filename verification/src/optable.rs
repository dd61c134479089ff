//! The operand table: how often each value is used, which values are
//! rematerialised at every use, and the locals of the block parameters.

use std::collections::{HashMap, HashSet};
use vstd::prelude::*;

use crate::conversions::ty::{wasm_of_cranelift, wasm_type};
use crate::error::TranslationError;
use crate::ir::{
    inst_args, Block, BlockData, SourceFunction, Inst, InstructionData, Opcode, Value, ValueDef,
};
use crate::target::{LocalId, ModuleLocals, ValType};

verus! {

broadcast use vstd::std_specs::hash::group_hash_axioms;

/// The role of a value that an instruction defines, wherever it is an operand.
#[derive(Clone, Copy, Debug, PartialEq, Eq, Structural)]
pub enum Operand {
    /// The value has at most one use: its definition is emitted at the use.
    SingleUse(Value),
    /// The value has several uses: its definition is emitted at the first of
    /// them and kept in a local, which the other uses read.
    NormalUse(Value),
    /// The value is a constant: its definition is emitted at every use, and
    /// never kept in a local.
    Rematerialise(Value),
}

/// What the operand pre-pass found out about a function.
pub struct OperandTable {
    /// The number of uses of each value that an instruction other than a
    /// constant defines and that is used at all.
    pub value_uses: HashMap<Value, usize>,
    /// The used values that a constant defines.
    pub rematerialize: HashSet<Value>,
    /// The parameters of each block that has parameters, in order, each
    /// with its local.
    pub block_params: HashMap<Block, Vec<(Value, LocalId)>>,
}

/// The mathematical content of an [`OperandTable`].
pub ghost struct OperandTableView {
    pub value_uses: Map<Value, nat>,
    pub rematerialize: Set<Value>,
    pub block_params: Map<Block, Seq<(Value, LocalId)>>,
}

impl View for OperandTable {
    type V = OperandTableView;

    open spec fn view(&self) -> OperandTableView {
        OperandTableView {
            value_uses: self.value_uses@.map_values(|n: usize| n as nat),
            rematerialize: self.rematerialize@,
            block_params: self.block_params@.map_values(|p: Vec<(Value, LocalId)>| p@),
        }
    }
}

/// The number of uses that the table counts for a value: none for a value
/// without an entry.
pub open spec fn use_count(table: OperandTableView, value: Value) -> nat {
    if table.value_uses.contains_key(value) {
        table.value_uses[value]
    } else {
        0
    }
}

/// The role of a value by the table: rematerialised if the table says so,
/// else by its number of uses: a single use up to one, a normal use from two.
pub open spec fn classify(table: OperandTableView, value: Value) -> Operand {
    if table.rematerialize.contains(value) {
        Operand::Rematerialise(value)
    } else if use_count(table, value) <= 1 {
        Operand::SingleUse(value)
    } else {
        Operand::NormalUse(value)
    }
}

impl Operand {
    /// The role of a value by the table.
    pub fn from_table(value: Value, table: &OperandTable) -> (r: Operand)
        ensures
            r == classify(table@, value),
    {
        if table.rematerialize.contains(&value) {
            return Operand::Rematerialise(value);
        }
        let uses: usize = match table.value_uses.get(&value) {
            None => 0,
            Some(uses) => *uses,
        };
        if uses <= 1 {
            Operand::SingleUse(value)
        } else {
            Operand::NormalUse(value)
        }
    }

    /// The role of a value by the table: every value has one, and a value
    /// that the table counts no use of has a single use.
    pub fn try_from_table(value: Value, table: &OperandTable) -> (r: Option<Operand>)
        ensures
            r == Some(classify(table@, value)),
    {
        Some(Operand::from_table(value, table))
    }
}


/// The parameters of the blocks of a layout, block after block.
pub open spec fn layout_params(layout: Seq<BlockData>) -> Seq<Value>
    decreases layout.len(),
{
    if layout.len() == 0 {
        Seq::empty()
    } else {
        layout_params(layout.drop_last()) + layout.last().params@
    }
}

/// The target type of each value of a list, or what is wrong with the first
/// value that has none: the function does not define it, or its type has no
/// counterpart.
pub open spec fn value_types(func: SourceFunction, values: Seq<Value>) -> Result<
    Seq<ValType>,
    TranslationError,
>
    decreases values.len(),
{
    if values.len() == 0 {
        Ok(Seq::empty())
    } else {
        match value_types(func, values.drop_last()) {
            Err(e) => Err(e),
            Ok(types) => match func.spec_value(values.last()) {
                None => Err(TranslationError::UnknownValue(values.last())),
                Some(data) => match wasm_type(data.ty) {
                    Some(t) => Ok(types.push(t)),
                    None => Err(TranslationError::UnsupportedType(data.ty)),
                },
            },
        }
    }
}

/// The operands of the instructions of a list, instruction after instruction,
/// or the first instruction of the list that the function does not define.
pub open spec fn block_slots(func: SourceFunction, insts: Seq<Inst>) -> Result<
    Seq<Value>,
    TranslationError,
>
    decreases insts.len(),
{
    if insts.len() == 0 {
        Ok(Seq::empty())
    } else {
        match block_slots(func, insts.drop_last()) {
            Err(e) => Err(e),
            Ok(slots) => match func.spec_inst(insts.last()) {
                None => Err(TranslationError::UnknownInst(insts.last())),
                Some(inst) => Ok(slots + inst_args(inst.data)),
            },
        }
    }
}

/// The operands of all instructions of a layout, block after block, or the
/// first instruction of the layout that the function does not define.
pub open spec fn layout_slots(func: SourceFunction, layout: Seq<BlockData>) -> Result<
    Seq<Value>,
    TranslationError,
>
    decreases layout.len(),
{
    if layout.len() == 0 {
        Ok(Seq::empty())
    } else {
        match layout_slots(func, layout.drop_last()) {
            Err(e) => Err(e),
            Ok(slots) => match block_slots(func, layout.last().insts@) {
                Err(e) => Err(e),
                Ok(more) => Ok(slots + more),
            },
        }
    }
}

/// What is wrong with an operand: the function does not define the value, or
/// not the instruction that the value is a result of.
pub open spec fn slot_defect(func: SourceFunction, value: Value) -> Option<TranslationError> {
    match func.spec_value(value) {
        None => Some(TranslationError::UnknownValue(value)),
        Some(data) => match data.def {
            ValueDef::Param(_, _) => None,
            ValueDef::Result(inst, _) => if func.spec_inst(inst) is None {
                Some(TranslationError::UnknownInst(inst))
            } else {
                None
            },
        },
    }
}

/// What is wrong with the first defective operand of a list.
pub open spec fn first_defect(func: SourceFunction, slots: Seq<Value>) -> Option<TranslationError>
    decreases slots.len(),
{
    if slots.len() == 0 {
        None
    } else {
        match first_defect(func, slots.drop_last()) {
            Some(e) => Some(e),
            None => slot_defect(func, slots.last()),
        }
    }
}

/// Is this the definition of an integer constant?
pub open spec fn is_constant(data: InstructionData) -> bool {
    match data {
        InstructionData::Unary { opcode, .. } => opcode == Opcode::Iconst,
        InstructionData::UnaryImm { opcode, .. } => opcode == Opcode::Iconst,
        _ => false,
    }
}

/// The instruction that defines a value, where one does.
pub open spec fn defining_inst(func: SourceFunction, value: Value) -> Option<Inst> {
    match func.spec_value(value) {
        None => None,
        Some(data) => match data.def {
            ValueDef::Param(_, _) => None,
            ValueDef::Result(inst, _) => if func.spec_inst(inst) is None {
                None
            } else {
                Some(inst)
            },
        },
    }
}

/// Is the value the result of an integer constant?
pub open spec fn is_rematerialised(func: SourceFunction, value: Value) -> bool {
    match defining_inst(func, value) {
        None => false,
        Some(inst) => is_constant(func.insts@[inst as int].data),
    }
}

/// Is the value the result of an instruction other than an integer constant?
pub open spec fn is_counted(func: SourceFunction, value: Value) -> bool {
    match defining_inst(func, value) {
        None => false,
        Some(inst) => !is_constant(func.insts@[inst as int].data),
    }
}

/// How often a value occurs in a list of operands.
pub open spec fn occurrences(slots: Seq<Value>, value: Value) -> nat
    decreases slots.len(),
{
    if slots.len() == 0 {
        0
    } else {
        occurrences(slots.drop_last(), value) + if slots.last() == value {
            1nat
        } else {
            0nat
        }
    }
}

/// The locals of the parameters of the blocks of a layout, where the locals
/// are numbered from `base` on, parameter after parameter, block after block.
/// A block without parameters has no entry.
pub open spec fn block_param_locals(layout: Seq<BlockData>, base: nat) -> Map<
    Block,
    Seq<(Value, LocalId)>,
>
    decreases layout.len(),
{
    if layout.len() == 0 {
        Map::empty()
    } else {
        let first = base + layout_params(layout.drop_last()).len();
        if layout.last().params@.len() == 0 {
            block_param_locals(layout.drop_last(), base)
        } else {
            block_param_locals(layout.drop_last(), base).insert(
                layout.last().block,
                Seq::new(
                    layout.last().params@.len(),
                    |j: int| (layout.last().params@[j], (first + j) as usize),
                ),
            )
        }
    }
}

/// The operand table of a function whose first local will be local `base`.
///
/// Every parameter of every block gets a local of its type, in layout
/// order, and every block that has parameters gets an entry with them.
/// Every operand of every instruction of the layout is then looked at: a
/// result of an integer constant is rematerialised, a result of another
/// instruction is counted. Nothing is counted for block parameters.
///
/// There is no table where a parameter has no target type, where a block
/// lists an instruction that the function does not define, or where an operand
/// is defective; the first of these, in this order, is the error.
pub open spec fn operand_table(func: SourceFunction, base: nat) -> Result<
    OperandTableView,
    TranslationError,
> {
    match value_types(func, layout_params(func.layout@)) {
        Err(e) => Err(e),
        Ok(_) => match layout_slots(func, func.layout@) {
            Err(e) => Err(e),
            Ok(slots) => match first_defect(func, slots) {
                Some(e) => Err(e),
                None => Ok(
                    OperandTableView {
                        value_uses: Map::new(
                            |v: Value| is_counted(func, v) && occurrences(slots, v) > 0,
                            |v: Value| occurrences(slots, v),
                        ),
                        rematerialize: Set::new(
                            |v: Value| is_rematerialised(func, v) && occurrences(slots, v) > 0,
                        ),
                        block_params: block_param_locals(func.layout@, base),
                    },
                ),
            },
        }
    }
}

/// The types of the locals that [`OperandTable::fill`] allocates.
pub open spec fn param_local_types(func: SourceFunction) -> Seq<ValType> {
    match value_types(func, layout_params(func.layout@)) {
        Ok(types) => types,
        Err(_) => Seq::empty(),
    }
}

proof fn lemma_layout_params_take(layout: Seq<BlockData>, n: int)
    requires
        0 <= n < layout.len(),
    ensures
        layout_params(layout.take(n + 1)) == layout_params(layout.take(n)) + layout[n].params@,
{
    assert(layout.take(n + 1).drop_last() == layout.take(n));
}

proof fn lemma_value_types_prefix(func: SourceFunction, values: Seq<Value>, n: int)
    requires
        0 <= n <= values.len(),
        value_types(func, values.take(n)) is Err,
    ensures
        value_types(func, values) == value_types(func, values.take(n)),
    decreases values.len(),
{
    if n < values.len() {
        assert(values.drop_last().take(n) == values.take(n));
        lemma_value_types_prefix(func, values.drop_last(), n);
    } else {
        assert(values.take(n) == values);
    }
}

proof fn lemma_block_slots_prefix(func: SourceFunction, insts: Seq<Inst>, n: int)
    requires
        0 <= n <= insts.len(),
        block_slots(func, insts.take(n)) is Err,
    ensures
        block_slots(func, insts) == block_slots(func, insts.take(n)),
    decreases insts.len(),
{
    if n < insts.len() {
        assert(insts.drop_last().take(n) == insts.take(n));
        lemma_block_slots_prefix(func, insts.drop_last(), n);
    } else {
        assert(insts.take(n) == insts);
    }
}

proof fn lemma_layout_slots_prefix(func: SourceFunction, layout: Seq<BlockData>, n: int)
    requires
        0 <= n <= layout.len(),
        layout_slots(func, layout.take(n)) is Err,
    ensures
        layout_slots(func, layout) == layout_slots(func, layout.take(n)),
    decreases layout.len(),
{
    if n < layout.len() {
        assert(layout.drop_last().take(n) == layout.take(n));
        lemma_layout_slots_prefix(func, layout.drop_last(), n);
    } else {
        assert(layout.take(n) == layout);
    }
}

proof fn lemma_first_defect_prefix(func: SourceFunction, slots: Seq<Value>, n: int)
    requires
        0 <= n <= slots.len(),
        first_defect(func, slots.take(n)) is Some,
    ensures
        first_defect(func, slots) == first_defect(func, slots.take(n)),
    decreases slots.len(),
{
    if n < slots.len() {
        assert(slots.drop_last().take(n) == slots.take(n));
        lemma_first_defect_prefix(func, slots.drop_last(), n);
    } else {
        assert(slots.take(n) == slots);
    }
}

/// A value occurs in a list at most as often as the list is long.
pub proof fn lemma_occurrences_bound(slots: Seq<Value>, value: Value)
    ensures
        occurrences(slots, value) <= slots.len(),
    decreases slots.len(),
{
    if slots.len() > 0 {
        lemma_occurrences_bound(slots.drop_last(), value);
    }
}

/// Where every value of a list has a target type, there are as many types as
/// values, and each is the type of the value at its place.
pub proof fn lemma_value_types_ok(func: SourceFunction, values: Seq<Value>)
    requires
        value_types(func, values) is Ok,
    ensures
        value_types(func, values)->Ok_0.len() == values.len(),
        forall|i: int|
            0 <= i < values.len() ==> {
                &&& (#[trigger] func.spec_value(values[i])) is Some
                &&& wasm_type(func.spec_value(values[i])->Some_0.ty) == Some(
                    value_types(func, values)->Ok_0[i],
                )
            },
    decreases values.len(),
{
    if values.len() > 0 {
        lemma_value_types_ok(func, values.drop_last());
        assert forall|i: int| 0 <= i < values.len() implies {
            &&& (#[trigger] func.spec_value(values[i])) is Some
            &&& wasm_type(func.spec_value(values[i])->Some_0.ty) == Some(
                value_types(func, values)->Ok_0[i],
            )
        } by {
            if i < values.len() - 1 {
                assert(values.drop_last()[i] == values[i]);
            }
        }
    }
}

/// The parameters of a layout, as one list.
fn collect_params(func: &SourceFunction) -> (params: Vec<Value>)
    ensures
        params@ == layout_params(func.layout@),
{
    let mut params: Vec<Value> = Vec::new();
    let mut b: usize = 0;
    assert(func.layout@.take(0) == Seq::<BlockData>::empty());
    while b < func.layout.len()
        invariant
            b <= func.layout.len(),
            params@ == layout_params(func.layout@.take(b as int)),
        decreases func.layout.len() - b,
    {
        let block = &func.layout[b];
        let ghost before = params@;
        let mut j: usize = 0;
        while j < block.params.len()
            invariant
                j <= block.params.len(),
                params@ == before + block.params@.take(j as int),
            decreases block.params.len() - j,
        {
            params.push(block.params[j]);
            assert(block.params@.take(j + 1) == block.params@.take(j as int).push(
                block.params@[j as int],
            ));
            j += 1;
        }
        assert(block.params@.take(j as int) == block.params@);
        proof {
            lemma_layout_params_take(func.layout@, b as int);
        }
        b += 1;
    }
    assert(func.layout@.take(b as int) == func.layout@);
    params
}

/// The target types of a list of values.
fn collect_types(func: &SourceFunction, values: &Vec<Value>) -> (r: Result<
    Vec<ValType>,
    TranslationError,
>)
    ensures
        match value_types(*func, values@) {
            Ok(types) => r is Ok && r->Ok_0@ == types,
            Err(e) => r == Err::<Vec<ValType>, TranslationError>(e),
        },
{
    let mut types: Vec<ValType> = Vec::new();
    let mut i: usize = 0;
    assert(values@.take(0) == Seq::<Value>::empty());
    while i < values.len()
        invariant
            i <= values.len(),
            value_types(*func, values@.take(i as int)) == Ok::<Seq<ValType>, TranslationError>(
                types@,
            ),
        decreases values.len() - i,
    {
        assert(values@.take(i + 1).drop_last() == values@.take(i as int));
        let data = match func.value(values[i]) {
            Some(data) => data,
            None => {
                proof {
                    lemma_value_types_prefix(*func, values@, i + 1);
                }
                return Err(TranslationError::UnknownValue(values[i]));
            },
        };
        match wasm_of_cranelift(data.ty) {
            Ok(t) => types.push(t),
            Err(e) => {
                proof {
                    lemma_value_types_prefix(*func, values@, i + 1);
                }
                return Err(e);
            },
        }
        i += 1;
    }
    assert(values@.take(i as int) == values@);
    Ok(types)
}

/// The operands of all instructions of the layout, as one list.
fn collect_slots(func: &SourceFunction) -> (r: Result<Vec<Value>, TranslationError>)
    ensures
        match layout_slots(*func, func.layout@) {
            Ok(slots) => r is Ok && r->Ok_0@ == slots,
            Err(e) => r == Err::<Vec<Value>, TranslationError>(e),
        },
{
    let mut slots: Vec<Value> = Vec::new();
    let mut b: usize = 0;
    assert(func.layout@.take(0) == Seq::<BlockData>::empty());
    while b < func.layout.len()
        invariant
            b <= func.layout.len(),
            layout_slots(*func, func.layout@.take(b as int)) == Ok::<Seq<Value>, TranslationError>(
                slots@,
            ),
        decreases func.layout.len() - b,
    {
        let block = &func.layout[b];
        let ghost before = slots@;
        let mut i: usize = 0;
        assert(func.layout@.take(b + 1).drop_last() == func.layout@.take(b as int));
        assert(block.insts@.take(0) == Seq::<Inst>::empty());
        while i < block.insts.len()
            invariant
                i <= block.insts.len(),
                b < func.layout.len(),
                *block == func.layout@[b as int],
                func.layout@.take(b + 1).drop_last() == func.layout@.take(b as int),
                layout_slots(*func, func.layout@.take(b as int)) == Ok::<
                    Seq<Value>,
                    TranslationError,
                >(before),
                block_slots(*func, block.insts@.take(i as int)) is Ok,
                slots@ == before + block_slots(*func, block.insts@.take(i as int))->Ok_0,
            decreases block.insts.len() - i,
        {
            assert(block.insts@.take(i + 1).drop_last() == block.insts@.take(i as int));
            let inst = match func.inst(block.insts[i]) {
                Some(inst) => inst,
                None => {
                    proof {
                        lemma_block_slots_prefix(*func, block.insts@, i + 1);
                        lemma_layout_slots_prefix(*func, func.layout@, b + 1);
                    }
                    return Err(TranslationError::UnknownInst(block.insts[i]));
                },
            };
            let ghost start = slots@;
            let n = inst.data.num_args();
            let mut k: usize = 0;
            while k < n
                invariant
                    k <= n,
                    n == inst_args(inst.data).len(),
                    slots@ == start + inst_args(inst.data).take(k as int),
                decreases n - k,
            {
                slots.push(inst.data.arg(k));
                assert(inst_args(inst.data).take(k + 1) == inst_args(inst.data).take(
                    k as int,
                ).push(inst_args(inst.data)[k as int]));
                k += 1;
            }
            assert(inst_args(inst.data).take(k as int) == inst_args(inst.data));
            assert(slots@ == before + (block_slots(*func, block.insts@.take(i as int))->Ok_0
                + inst_args(inst.data)));
            i += 1;
        }
        assert(block.insts@.take(i as int) == block.insts@);
        b += 1;
    }
    assert(func.layout@.take(b as int) == func.layout@);
    Ok(slots)
}


/// The counts and the constants among a list of operands.
fn tally_slots(func: &SourceFunction, slots: &Vec<Value>) -> (r: Result<
    (HashMap<Value, usize>, HashSet<Value>),
    TranslationError,
>)
    ensures
        match first_defect(*func, slots@) {
            Some(e) => r == Err::<(HashMap<Value, usize>, HashSet<Value>), TranslationError>(e),
            None => {
                &&& r is Ok
                &&& forall|v: Value|
                    r->Ok_0.0@.contains_key(v) <==> is_counted(*func, v) && occurrences(
                        slots@,
                        v,
                    ) > 0
                &&& forall|v: Value| #[trigger]
                    r->Ok_0.0@.contains_key(v) ==> r->Ok_0.0@[v] == occurrences(slots@, v)
                &&& forall|v: Value|
                    r->Ok_0.1@.contains(v) <==> is_rematerialised(*func, v) && occurrences(
                        slots@,
                        v,
                    ) > 0
            },
        },
{
    let mut value_uses: HashMap<Value, usize> = HashMap::new();
    let mut rematerialize: HashSet<Value> = HashSet::new();
    let mut i: usize = 0;
    assert(slots@.take(0) == Seq::<Value>::empty());
    while i < slots.len()
        invariant
            i <= slots.len(),
            first_defect(*func, slots@.take(i as int)) is None,
            forall|v: Value| #[trigger]
                value_uses@.contains_key(v) <==> is_counted(*func, v) && occurrences(
                    slots@.take(i as int),
                    v,
                ) > 0,
            forall|v: Value| #[trigger]
                value_uses@.contains_key(v) ==> value_uses@[v] == occurrences(
                    slots@.take(i as int),
                    v,
                ),
            forall|v: Value| #[trigger]
                rematerialize@.contains(v) <==> is_rematerialised(*func, v) && occurrences(
                    slots@.take(i as int),
                    v,
                ) > 0,
        decreases slots.len() - i,
    {
        let value = slots[i];
        assert(slots@.take(i + 1).drop_last() == slots@.take(i as int));
        assert(slots@.take(i + 1).last() == value);
        let ghost old_uses = value_uses@;
        let ghost old_remat = rematerialize@;
        let data = match func.value(value) {
            Some(data) => data,
            None => {
                proof {
                    lemma_first_defect_prefix(*func, slots@, i + 1);
                }
                return Err(TranslationError::UnknownValue(value));
            },
        };
        match data.def {
            ValueDef::Param(_, _) => {},
            ValueDef::Result(inst, _) => {
                let def = match func.inst(inst) {
                    Some(def) => def,
                    None => {
                        proof {
                            lemma_first_defect_prefix(*func, slots@, i + 1);
                        }
                        return Err(TranslationError::UnknownInst(inst));
                    },
                };
                let constant = match &def.data {
                    InstructionData::Unary { opcode, .. } => *opcode == Opcode::Iconst,
                    InstructionData::UnaryImm { opcode, .. } => *opcode == Opcode::Iconst,
                    _ => false,
                };
                assert(defining_inst(*func, value) == Some(inst));
                assert(def.data == func.insts@[inst as int].data);
                assert(constant == is_constant(def.data));
                if constant {
                    rematerialize.insert(value);
                } else {
                    let uses = match value_uses.get(&value) {
                        Some(uses) => *uses,
                        None => 0,
                    };
                    proof {
                        lemma_occurrences_bound(slots@.take(i as int), value);
                    }
                    value_uses.insert(value, uses + 1);
                }
            },
        }
        proof {
            let before = slots@.take(i as int);
            let after = slots@.take(i + 1);
            assert forall|v: Value| #[trigger]
                value_uses@.contains_key(v) <==> is_counted(*func, v) && occurrences(after, v)
                    > 0 by {
                assert(old_uses.contains_key(v) <==> is_counted(*func, v) && occurrences(
                    before,
                    v,
                ) > 0);
            }
            assert forall|v: Value| #[trigger]
                value_uses@.contains_key(v) implies value_uses@[v] == occurrences(after, v) by {
                assert(old_uses.contains_key(v) <==> is_counted(*func, v) && occurrences(
                    before,
                    v,
                ) > 0);
                if old_uses.contains_key(v) {
                    assert(old_uses[v] == occurrences(before, v));
                }
            }
            assert forall|v: Value| #[trigger]
                rematerialize@.contains(v) <==> is_rematerialised(*func, v) && occurrences(
                    after,
                    v,
                ) > 0 by {
                assert(old_remat.contains(v) <==> is_rematerialised(*func, v) && occurrences(
                    before,
                    v,
                ) > 0);
            }
        }
        i += 1;
    }
    assert(slots@.take(i as int) == slots@);
    Ok((value_uses, rematerialize))
}

/// Allocates a local for every parameter of every block of the layout.
fn allocate_params(func: &SourceFunction, types: &Vec<ValType>, module: &mut ModuleLocals) -> (r: HashMap<
    Block,
    Vec<(Value, LocalId)>,
>)
    requires
        types@.len() == layout_params(func.layout@).len(),
    ensures
        final(module)@ == old(module)@ + types@,
        r@.map_values(|p: Vec<(Value, LocalId)>| p@) == block_param_locals(
            func.layout@,
            old(module)@.len(),
        ),
{
    let ghost base = module@.len();
    let ghost locals = module@;
    let mut block_params: HashMap<Block, Vec<(Value, LocalId)>> = HashMap::new();
    let mut b: usize = 0;
    let mut k: usize = 0;
    let count = types.len();
    assert(func.layout@.take(0) == Seq::<BlockData>::empty());
    assert(block_params@.map_values(|p: Vec<(Value, LocalId)>| p@) =~= block_param_locals(
        func.layout@.take(0),
        base,
    ));
    assert(types@.take(0) == Seq::<ValType>::empty());
    while b < func.layout.len()
        invariant
            b <= func.layout.len(),
            count == types@.len(),
            types@.len() == layout_params(func.layout@).len(),
            k == layout_params(func.layout@.take(b as int)).len(),
            k <= types@.len(),
            base == locals.len(),
            module@ == locals + types@.take(k as int),
            block_params@.map_values(|p: Vec<(Value, LocalId)>| p@) == block_param_locals(
                func.layout@.take(b as int),
                base,
            ),
        decreases func.layout.len() - b,
    {
        let block = &func.layout[b];
        proof {
            lemma_layout_params_take(func.layout@, b as int);
            lemma_layout_params_monotonic(func.layout@, b + 1);
        }
        let ghost first = k;
        let mut row: Vec<(Value, LocalId)> = Vec::new();
        let mut j: usize = 0;
        while j < block.params.len()
            invariant
                j <= block.params.len(),
                count == types@.len(),
                first + block.params@.len() <= types@.len(),
                k == first + j,
                base == locals.len(),
                module@ == locals + types@.take(k as int),
                row@ == Seq::new(
                    j as nat,
                    |n: int| (block.params@[n], (base + first + n) as usize),
                ),
            decreases block.params.len() - j,
        {
            let id = module.add(types[k]);
            row.push((block.params[j], id));
            assert(types@.take(k + 1) == types@.take(k as int).push(types@[k as int]));
            assert(module@ == locals + types@.take(k + 1));
            k += 1;
            j += 1;
            assert(row@ =~= Seq::new(
                j as nat,
                |n: int| (block.params@[n], (base + first + n) as usize),
            ));
        }
        let ghost previous = block_params@.map_values(|p: Vec<(Value, LocalId)>| p@);
        assert(func.layout@.take(b + 1).drop_last() == func.layout@.take(b as int));
        assert(func.layout@.take(b + 1).last() == *block);
        if block.params.len() > 0 {
            block_params.insert(block.block, row);
            assert(block_params@.map_values(|p: Vec<(Value, LocalId)>| p@) =~= previous.insert(
                block.block,
                row@,
            ));
        }
        b += 1;
    }
    assert(func.layout@.take(b as int) == func.layout@);
    assert(types@.take(k as int) == types@);
    block_params
}

/// The parameters of the first blocks of a layout are among those of the
/// whole layout.
proof fn lemma_layout_params_monotonic(layout: Seq<BlockData>, n: int)
    requires
        0 <= n <= layout.len(),
    ensures
        layout_params(layout.take(n)).len() <= layout_params(layout).len(),
    decreases layout.len(),
{
    if n < layout.len() {
        assert(layout.drop_last().take(n) == layout.take(n));
        lemma_layout_params_monotonic(layout.drop_last(), n);
    } else {
        assert(layout.take(n) == layout);
    }
}

impl OperandTable {
    /// Computes the role of every value of a function, and allocates a local
    /// for every block parameter.
    ///
    /// On success the module has the locals of the parameters in addition to
    /// those it had; on failure it is unchanged.
    pub fn fill(func: &SourceFunction, module: &mut ModuleLocals) -> (r: Result<
        OperandTable,
        TranslationError,
    >)
        ensures
            match operand_table(*func, old(module)@.len()) {
                Ok(table) => {
                    &&& r is Ok
                    &&& r->Ok_0@ == table
                    &&& final(module)@ == old(module)@ + param_local_types(*func)
                },
                Err(e) => {
                    &&& r == Err::<OperandTable, TranslationError>(e)
                    &&& final(module)@ == old(module)@
                },
            },
    {
        let params = collect_params(func);
        let types = collect_types(func, &params)?;
        let slots = collect_slots(func)?;
        let (value_uses, rematerialize) = tally_slots(func, &slots)?;
        proof {
            lemma_value_types_ok(*func, params@);
        }
        let block_params = allocate_params(func, &types, module);
        let table = OperandTable { value_uses, rematerialize, block_params };
        proof {
            let view = operand_table(*func, old(module)@.len())->Ok_0;
            assert(table@.value_uses =~= view.value_uses);
            assert(table@.rematerialize =~= view.rematerialize);
        }
        Ok(table)
    }
}

} // verus!
