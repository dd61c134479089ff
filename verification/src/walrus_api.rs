//! The `walrus` crate, which holds the module under construction. Nothing in
//! this file is proved: each item states what the source of
//! `walrus` shows of the function that it calls.

use vstd::prelude::*;

use crate::target::{BinaryOp, ValType};

verus! {

/// `walrus::Module`: a WebAssembly module under construction.
#[verifier::external_type_specification]
#[verifier::external_body]
pub struct ExModule(walrus::Module);

/// `walrus::ModuleConfig`: the configuration of a module.
#[verifier::external_type_specification]
#[verifier::external_body]
pub struct ExModuleConfig(walrus::ModuleConfig);

/// `walrus::FunctionBuilder`: a function under construction.
#[verifier::external_type_specification]
#[verifier::external_body]
pub struct ExFunctionBuilder(walrus::FunctionBuilder);

/// The identity of a local of a module (`walrus::LocalId`).
#[verifier::external_body]
pub struct LocalRef {
    id: walrus::LocalId,
}

/// The identity of an instruction sequence of a function
/// (`walrus::ir::InstrSeqId`).
#[verifier::external_body]
pub struct SeqRef {
    id: walrus::ir::InstrSeqId,
}

/// The identity of a function of a module (`walrus::FunctionId`).
#[verifier::external_body]
pub struct FunctionRef {
    id: walrus::FunctionId,
}

/// The identity of a data segment of a module (`walrus::DataId`).
#[verifier::external_body]
pub struct DataRef {
    id: walrus::DataId,
}

impl Clone for LocalRef {
    /// A copy of the identity (`id_arena::Id` is `Copy`): it names the same
    /// local.
    #[verifier::external_body]
    fn clone(&self) -> (r: Self)
        ensures
            r == *self,
    {
        LocalRef { id: self.id }
    }
}

impl Copy for LocalRef {

}

impl Clone for SeqRef {
    /// A copy of the identity (`id_arena::Id` is `Copy`): it names the same
    /// sequence.
    #[verifier::external_body]
    fn clone(&self) -> (r: Self)
        ensures
            r == *self,
    {
        SeqRef { id: self.id }
    }
}

impl Copy for SeqRef {

}

impl Clone for FunctionRef {
    /// A copy of the identity (`id_arena::Id` is `Copy`): it names the same
    /// function.
    #[verifier::external_body]
    fn clone(&self) -> (r: Self)
        ensures
            r == *self,
    {
        FunctionRef { id: self.id }
    }
}

impl Copy for FunctionRef {

}

impl Clone for DataRef {
    /// A copy of the identity (`id_arena::Id` is `Copy`): it names the same
    /// data segment.
    #[verifier::external_body]
    fn clone(&self) -> (r: Self)
        ensures
            r == *self,
    {
        DataRef { id: self.id }
    }
}

impl Copy for DataRef {

}

/// An instruction as a sequence of `walrus` holds it.
pub ghost enum Op {
    LocalGet(LocalRef),
    LocalSet(LocalRef),
    I32Const(i32),
    I64Const(i64),
    Binop(BinaryOp),
    Br(SeqRef),
    BrIf(SeqRef),
    Return,
    Unreachable,
    Block(SeqRef),
    Loop(SeqRef),
    IfElse(SeqRef, SeqRef),
}

/// What a function under construction holds.
pub ghost struct BuilderView {
    /// The types of the parameters.
    pub params: Seq<ValType>,
    /// The types of the results.
    pub results: Seq<ValType>,
    /// The name, once one was given.
    pub name: Option<Seq<char>>,
    /// The sequence that is the body.
    pub body: SeqRef,
    /// The instructions of each sequence.
    pub seqs: Map<SeqRef, Seq<Op>>,
}

/// What a finished function holds.
pub ghost struct FunctionView {
    /// What was built.
    pub builder: BuilderView,
    /// The locals that receive the arguments.
    pub args: Seq<LocalRef>,
}

/// A memory of a module.
pub ghost struct MemoryView {
    pub shared: bool,
    pub initial: u32,
    pub maximum: Option<u32>,
}

/// What a module under construction holds.
pub ghost struct ModuleView {
    /// The type of each local.
    pub locals: Map<LocalRef, ValType>,
    /// The functions.
    pub functions: Map<FunctionRef, FunctionView>,
    /// The exported functions by their names, in the order of their export.
    pub exports: Seq<(Seq<char>, FunctionRef)>,
    /// The memories, in the order of their creation.
    pub memories: Seq<MemoryView>,
    /// The bytes of each passive data segment.
    pub data: Map<DataRef, Seq<u8>>,
}

/// What a `walrus::FunctionBuilder` holds.
pub uninterp spec fn builder_view(builder: walrus::FunctionBuilder) -> BuilderView;

/// What a `walrus::Module` holds.
pub uninterp spec fn module_view(module: walrus::Module) -> ModuleView;

/// A sequence of a builder with one more instruction at its end.
pub open spec fn with_op(view: BuilderView, seq: SeqRef, op: Op) -> BuilderView {
    BuilderView { seqs: view.seqs.insert(seq, view.seqs[seq].push(op)), ..view }
}

/// `walrus::Module::default`: a module that holds nothing.
#[verifier::external_body]
pub(crate) fn new_module() -> (module: walrus::Module)
    ensures
        module_view(module) == (ModuleView {
            locals: Map::empty(),
            functions: Map::empty(),
            exports: Seq::empty(),
            memories: Seq::empty(),
            data: Map::empty(),
        }),
{
    walrus::Module::default()
}

/// `walrus::ModuleMemories::add_local`: the module gets one more memory,
/// shared or not, with the given number of pages at first and the given
/// limit, if any.
#[verifier::external_body]
pub(crate) fn add_memory(
    module: &mut walrus::Module,
    shared: bool,
    initial: u32,
    maximum: Option<u32>,
)
    ensures
        module_view(*final(module)) == (ModuleView {
            memories: module_view(*old(module)).memories.push(
                MemoryView { shared, initial, maximum },
            ),
            ..module_view(*old(module))
        }),
{
    module.memories.add_local(shared, initial, maximum);
}

/// `walrus::ModuleLocals::add`: the module gets one more local of the given
/// type, under an identity that no local had.
#[verifier::external_body]
pub(crate) fn add_local(module: &mut walrus::Module, ty: ValType) -> (local: LocalRef)
    ensures
        !module_view(*old(module)).locals.contains_key(local),
        module_view(*final(module)) == (ModuleView {
            locals: module_view(*old(module)).locals.insert(local, ty),
            ..module_view(*old(module))
        }),
{
    let ty = match ty {
        ValType::I32 => walrus::ValType::I32,
        ValType::I64 => walrus::ValType::I64,
        ValType::F32 => walrus::ValType::F32,
        ValType::F64 => walrus::ValType::F64,
    };
    LocalRef { id: module.locals.add(ty) }
}

/// `walrus::FunctionBuilder::new`: a function with the given signature and
/// no name, whose only sequence is its body, which is empty. The module gets
/// the type of the function, and is otherwise unchanged.
#[verifier::external_body]
pub(crate) fn new_builder(
    module: &mut walrus::Module,
    params: &Vec<ValType>,
    results: &Vec<ValType>,
) -> (builder: walrus::FunctionBuilder)
    ensures
        module_view(*final(module)) == module_view(*old(module)),
        builder_view(builder).params == params@,
        builder_view(builder).results == results@,
        builder_view(builder).name is None,
        builder_view(builder).seqs == Map::<SeqRef, Seq<Op>>::empty().insert(
            builder_view(builder).body,
            Seq::empty(),
        ),
{
    let convert = |ty: &ValType| match ty {
        ValType::I32 => walrus::ValType::I32,
        ValType::I64 => walrus::ValType::I64,
        ValType::F32 => walrus::ValType::F32,
        ValType::F64 => walrus::ValType::F64,
    };
    let params: Vec<walrus::ValType> = params.iter().map(convert).collect();
    let results: Vec<walrus::ValType> = results.iter().map(convert).collect();
    walrus::FunctionBuilder::new(&mut module.types, &params, &results)
}

/// `walrus::FunctionBuilder::name`: the function gets the name.
#[verifier::external_body]
pub(crate) fn set_name(builder: &mut walrus::FunctionBuilder, name: &str)
    ensures
        builder_view(*final(builder)) == (BuilderView {
            name: Some(name@),
            ..builder_view(*old(builder))
        }),
{
    builder.name(name.to_string());
}

/// `walrus::FunctionBuilder::func_body_id`: the sequence that is the body.
#[verifier::external_body]
pub(crate) fn body_of(builder: &walrus::FunctionBuilder) -> (seq: SeqRef)
    ensures
        seq == builder_view(*builder).body,
{
    SeqRef { id: builder.func_body_id() }
}

/// `walrus::FunctionBuilder::dangling_instr_seq`: the function gets one more
/// sequence, which is empty, under an identity that no sequence had.
#[verifier::external_body]
pub(crate) fn new_seq(builder: &mut walrus::FunctionBuilder) -> (seq: SeqRef)
    ensures
        !builder_view(*old(builder)).seqs.contains_key(seq),
        builder_view(*final(builder)) == (BuilderView {
            seqs: builder_view(*old(builder)).seqs.insert(seq, Seq::empty()),
            ..builder_view(*old(builder))
        }),
{
    SeqRef { id: builder.dangling_instr_seq(None).id() }
}

/// `walrus::InstrSeqBuilder::local_get`: the sequence gets a `local.get` at
/// its end.
#[verifier::external_body]
pub(crate) fn push_local_get(builder: &mut walrus::FunctionBuilder, seq: SeqRef, local: LocalRef)
    requires
        builder_view(*old(builder)).seqs.contains_key(seq),
    ensures
        builder_view(*final(builder)) == with_op(
            builder_view(*old(builder)),
            seq,
            Op::LocalGet(local),
        ),
{
    builder.instr_seq(seq.id).local_get(local.id);
}

/// `walrus::InstrSeqBuilder::local_set`: the sequence gets a `local.set` at
/// its end.
#[verifier::external_body]
pub(crate) fn push_local_set(builder: &mut walrus::FunctionBuilder, seq: SeqRef, local: LocalRef)
    requires
        builder_view(*old(builder)).seqs.contains_key(seq),
    ensures
        builder_view(*final(builder)) == with_op(
            builder_view(*old(builder)),
            seq,
            Op::LocalSet(local),
        ),
{
    builder.instr_seq(seq.id).local_set(local.id);
}

/// `walrus::InstrSeqBuilder::i32_const`: the sequence gets an `i32.const` at
/// its end.
#[verifier::external_body]
pub(crate) fn push_i32_const(builder: &mut walrus::FunctionBuilder, seq: SeqRef, value: i32)
    requires
        builder_view(*old(builder)).seqs.contains_key(seq),
    ensures
        builder_view(*final(builder)) == with_op(
            builder_view(*old(builder)),
            seq,
            Op::I32Const(value),
        ),
{
    builder.instr_seq(seq.id).i32_const(value);
}

/// `walrus::InstrSeqBuilder::i64_const`: the sequence gets an `i64.const` at
/// its end.
#[verifier::external_body]
pub(crate) fn push_i64_const(builder: &mut walrus::FunctionBuilder, seq: SeqRef, value: i64)
    requires
        builder_view(*old(builder)).seqs.contains_key(seq),
    ensures
        builder_view(*final(builder)) == with_op(
            builder_view(*old(builder)),
            seq,
            Op::I64Const(value),
        ),
{
    builder.instr_seq(seq.id).i64_const(value);
}

/// `walrus::InstrSeqBuilder::binop`: the sequence gets the binary operator
/// at its end.
#[verifier::external_body]
pub(crate) fn push_binop(builder: &mut walrus::FunctionBuilder, seq: SeqRef, op: BinaryOp)
    requires
        builder_view(*old(builder)).seqs.contains_key(seq),
    ensures
        builder_view(*final(builder)) == with_op(builder_view(*old(builder)), seq, Op::Binop(op)),
{
    builder.instr_seq(seq.id).binop(
        match op {
            BinaryOp::I32Eq => walrus::ir::BinaryOp::I32Eq,
            BinaryOp::I32Ne => walrus::ir::BinaryOp::I32Ne,
            BinaryOp::I32LeU => walrus::ir::BinaryOp::I32LeU,
            BinaryOp::I64Eq => walrus::ir::BinaryOp::I64Eq,
            BinaryOp::I64Ne => walrus::ir::BinaryOp::I64Ne,
            BinaryOp::I64LeU => walrus::ir::BinaryOp::I64LeU,
            BinaryOp::I32Add => walrus::ir::BinaryOp::I32Add,
            BinaryOp::I32Sub => walrus::ir::BinaryOp::I32Sub,
            BinaryOp::I64Add => walrus::ir::BinaryOp::I64Add,
            BinaryOp::I64Sub => walrus::ir::BinaryOp::I64Sub,
        },
    );
}

/// `walrus::InstrSeqBuilder::br`: the sequence gets a `br` to the target at
/// its end.
#[verifier::external_body]
pub(crate) fn push_br(builder: &mut walrus::FunctionBuilder, seq: SeqRef, target: SeqRef)
    requires
        builder_view(*old(builder)).seqs.contains_key(seq),
    ensures
        builder_view(*final(builder)) == with_op(builder_view(*old(builder)), seq, Op::Br(target)),
{
    builder.instr_seq(seq.id).br(target.id);
}

/// `walrus::InstrSeqBuilder::br_if`: the sequence gets a `br_if` to the
/// target at its end.
#[verifier::external_body]
pub(crate) fn push_br_if(builder: &mut walrus::FunctionBuilder, seq: SeqRef, target: SeqRef)
    requires
        builder_view(*old(builder)).seqs.contains_key(seq),
    ensures
        builder_view(*final(builder)) == with_op(
            builder_view(*old(builder)),
            seq,
            Op::BrIf(target),
        ),
{
    builder.instr_seq(seq.id).br_if(target.id);
}

/// `walrus::InstrSeqBuilder::return_`: the sequence gets a `return` at its
/// end.
#[verifier::external_body]
pub(crate) fn push_return(builder: &mut walrus::FunctionBuilder, seq: SeqRef)
    requires
        builder_view(*old(builder)).seqs.contains_key(seq),
    ensures
        builder_view(*final(builder)) == with_op(builder_view(*old(builder)), seq, Op::Return),
{
    builder.instr_seq(seq.id).return_();
}

/// `walrus::InstrSeqBuilder::unreachable`: the sequence gets an
/// `unreachable` at its end.
#[verifier::external_body]
pub(crate) fn push_unreachable(builder: &mut walrus::FunctionBuilder, seq: SeqRef)
    requires
        builder_view(*old(builder)).seqs.contains_key(seq),
    ensures
        builder_view(*final(builder)) == with_op(
            builder_view(*old(builder)),
            seq,
            Op::Unreachable,
        ),
{
    builder.instr_seq(seq.id).unreachable();
}

/// `walrus::InstrSeqBuilder::instr` with a `walrus::ir::Block`: the sequence
/// gets a block at its end, whose body is the inner sequence.
#[verifier::external_body]
pub(crate) fn push_block(builder: &mut walrus::FunctionBuilder, seq: SeqRef, inner: SeqRef)
    requires
        builder_view(*old(builder)).seqs.contains_key(seq),
    ensures
        builder_view(*final(builder)) == with_op(
            builder_view(*old(builder)),
            seq,
            Op::Block(inner),
        ),
{
    builder.instr_seq(seq.id).instr(walrus::ir::Block { seq: inner.id });
}

/// `walrus::InstrSeqBuilder::instr` with a `walrus::ir::Loop`: the sequence
/// gets a loop at its end, whose body is the inner sequence.
#[verifier::external_body]
pub(crate) fn push_loop(builder: &mut walrus::FunctionBuilder, seq: SeqRef, inner: SeqRef)
    requires
        builder_view(*old(builder)).seqs.contains_key(seq),
    ensures
        builder_view(*final(builder)) == with_op(
            builder_view(*old(builder)),
            seq,
            Op::Loop(inner),
        ),
{
    builder.instr_seq(seq.id).instr(walrus::ir::Loop { seq: inner.id });
}

/// `walrus::InstrSeqBuilder::instr` with a `walrus::ir::IfElse`: the sequence
/// gets an `if` at its end, whose arms are the two sequences.
#[verifier::external_body]
pub(crate) fn push_if_else(
    builder: &mut walrus::FunctionBuilder,
    seq: SeqRef,
    consequent: SeqRef,
    alternative: SeqRef,
)
    requires
        builder_view(*old(builder)).seqs.contains_key(seq),
    ensures
        builder_view(*final(builder)) == with_op(
            builder_view(*old(builder)),
            seq,
            Op::IfElse(consequent, alternative),
        ),
{
    let arms = walrus::ir::IfElse { consequent: consequent.id, alternative: alternative.id };
    builder.instr_seq(seq.id).instr(arms);
}

/// `walrus::FunctionBuilder::finish`: the module gets the function that was
/// built, with the locals that receive its arguments, under an identity that
/// no function had.
#[verifier::external_body]
pub(crate) fn finish_function(
    module: &mut walrus::Module,
    builder: walrus::FunctionBuilder,
    args: Vec<LocalRef>,
) -> (function: FunctionRef)
    ensures
        !module_view(*old(module)).functions.contains_key(function),
        module_view(*final(module)) == (ModuleView {
            functions: module_view(*old(module)).functions.insert(
                function,
                FunctionView { builder: builder_view(builder), args: args@ },
            ),
            ..module_view(*old(module))
        }),
{
    let args = args.iter().map(|local| local.id).collect();
    FunctionRef { id: builder.finish(args, &mut module.funcs) }
}

/// `walrus::LocalFunction::builder_mut` and the field `args` of the local
/// function that `walrus::ModuleFunctions::get_mut` hands out: a function of
/// the module gets what was built, under the name that it has, in place of
/// what it held, and the locals that receive its arguments.
#[verifier::external_body]
pub(crate) fn replace_function(
    module: &mut walrus::Module,
    function: FunctionRef,
    builder: walrus::FunctionBuilder,
    args: Vec<LocalRef>,
)
    requires
        module_view(*old(module)).functions.contains_key(function),
        builder_view(builder).name == module_view(*old(module)).functions[function].builder.name,
    ensures
        module_view(*final(module)) == (ModuleView {
            functions: module_view(*old(module)).functions.insert(
                function,
                FunctionView { builder: builder_view(builder), args: args@ },
            ),
            ..module_view(*old(module))
        }),
{
    let local = module.funcs.get_mut(function.id).kind.unwrap_local_mut();
    *local.builder_mut() = builder;
    local.args = args.iter().map(|local| local.id).collect();
}

/// `walrus::ModuleExports::add`: the module exports the function under the
/// name.
#[verifier::external_body]
pub(crate) fn export_function(module: &mut walrus::Module, name: &str, function: FunctionRef)
    ensures
        module_view(*final(module)) == (ModuleView {
            exports: module_view(*old(module)).exports.push((name@, function)),
            ..module_view(*old(module))
        }),
{
    module.exports.add(name, function.id);
}

/// `walrus::ModuleData::add`: the module gets one more passive data segment
/// with the given bytes, under an identity that no segment had.
#[verifier::external_body]
pub(crate) fn add_data(module: &mut walrus::Module, bytes: Vec<u8>) -> (data: DataRef)
    ensures
        !module_view(*old(module)).data.contains_key(data),
        module_view(*final(module)) == (ModuleView {
            data: module_view(*old(module)).data.insert(data, bytes@),
            ..module_view(*old(module))
        }),
{
    DataRef { id: module.data.add(walrus::DataKind::Passive, bytes) }
}

/// `walrus::ModuleData::get_mut`, and an assignment to the field `value` of
/// the `walrus::Data` that it gives: the segment holds the bytes.
#[verifier::external_body]
pub(crate) fn set_data(module: &mut walrus::Module, data: DataRef, bytes: Vec<u8>)
    requires
        module_view(*old(module)).data.contains_key(data),
    ensures
        module_view(*final(module)) == (ModuleView {
            data: module_view(*old(module)).data.insert(data, bytes@),
            ..module_view(*old(module))
        }),
{
    module.data.get_mut(data.id).value = bytes;
}

} // verus!
