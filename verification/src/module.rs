//! The module under construction: functions are declared and defined from
//! their source form, data segments are declared and filled, and the whole
//! is handed out as a module of `walrus`.

use vstd::prelude::*;

use crate::assemble::{
    body_defect, env_map, flat_all, holds, lemma_holds_weaken, lemma_loaded_holds, load_nodes,
    parse_body, Node,
};
use crate::conversions::sig::{wasm_of_sig, wasm_signature};
use crate::error::TranslationError;
use crate::ir::{Signature, SourceFunction};
use crate::target::{InstrSeqId, LocalId, ValType};
use crate::shape::{shape_view, ShapeView, ShapedBlock};
use crate::translator::{shaped_translation, translate_shape, FunctionBody, FunctionBodyView};
use crate::walrus_api::{
    add_data, add_local, add_memory, body_of, builder_view, export_function,
    finish_function, module_view, new_builder, new_module, replace_function,
    set_data, set_name, DataRef, FunctionRef, FunctionView, LocalRef, MemoryView, ModuleView, Op,
    SeqRef,
};

verus! {

/// How a function is visible outside of the module.
#[derive(Clone, Copy, Debug, PartialEq, Eq, Structural)]
pub enum Linkage {
    /// Defined elsewhere. Reserved.
    Import,
    /// Defined in the module and visible in it alone.
    Local,
    /// Defined in the module, where another definition may take its place.
    /// Reserved.
    Preemptible,
    /// Defined in the module and hidden outside of it. Reserved.
    Hidden,
    /// Defined in the module and exported under its name.
    Export,
}

/// The number of pages of the memory of a module.
pub const MEMORY_PAGES: u32 = 1000;

/// What is known of a function that was compiled.
#[derive(Clone, Copy, Debug, PartialEq, Eq, Structural)]
pub struct ModuleCompiledFunction {
    /// The size of the function. It is not computed, and zero.
    pub size: u32,
}

/// The initial content of a data segment.
#[derive(Debug, PartialEq, Eq)]
pub enum Init {
    /// No content was given.
    Uninitialized,
    /// This many zero bytes.
    Zeros { size: usize },
    /// These bytes.
    Bytes { contents: Vec<u8> },
}

/// A function of a module: how it was declared, and its body once it was
/// defined.
pub struct FunctionRecord {
    name: String,
    linkage: Linkage,
    params: Vec<ValType>,
    results: Vec<ValType>,
    body: Option<FunctionBody>,
    function: FunctionRef,
}

/// The mathematical content of a [`FunctionRecord`].
pub ghost struct FunctionRecordView {
    /// The name that the function was declared under.
    pub name: Seq<char>,
    /// The linkage that the function was declared with.
    pub linkage: Linkage,
    /// The types of the parameters that the function was declared with.
    pub params: Seq<ValType>,
    /// The types of the results that the function was declared with.
    pub results: Seq<ValType>,
    /// The body, once the function was defined.
    pub body: Option<FunctionBodyView>,
    /// The function of `walrus` that stands for the function in the module.
    pub function: FunctionRef,
}

impl View for FunctionRecord {
    type V = FunctionRecordView;

    closed spec fn view(&self) -> FunctionRecordView {
        FunctionRecordView {
            name: self.name@,
            linkage: self.linkage,
            params: self.params@,
            results: self.results@,
            body: match self.body {
                Some(body) => Some(body@),
                None => None,
            },
            function: self.function,
        }
    }
}

/// A WebAssembly module.
pub struct WasmModule {
    /// The module as `walrus` holds it.
    module: walrus::Module,
    /// The configuration that the module was made with. Nothing reads it.
    config: walrus::ModuleConfig,
    /// The functions, in the order of their declaration.
    functions: Vec<FunctionRecord>,
    /// The functions that are exported, in the order of their export.
    exports: Vec<usize>,
    /// The data segments, in the order of their declaration.
    data: Vec<DataRef>,
}

/// The mathematical content of a [`WasmModule`].
pub ghost struct WasmModuleView {
    /// The functions, in the order of their declaration.
    pub functions: Seq<FunctionRecordView>,
    /// The ids of the functions that are exported, in the order of their
    /// export.
    pub exports: Seq<usize>,
    /// The data segments of `walrus`, in the order of their declaration.
    pub data: Seq<DataRef>,
}

/// Does a function of `walrus` stand for a function that was declared and is
/// not defined yet? It has the signature and the name, an empty body, and no
/// local for an argument.
pub open spec fn awaits(function: FunctionView, record: FunctionRecordView) -> bool {
    &&& record.body is None
    &&& function.builder.params == record.params
    &&& function.builder.results == record.results
    &&& function.builder.name == Some(record.name)
    &&& function.builder.seqs == Map::<SeqRef, Seq<Op>>::empty().insert(
        function.builder.body,
        Seq::empty(),
    )
    &&& function.args == Seq::<LocalRef>::empty()
}

/// Does a function of `walrus` render a translated function? It has the
/// signature and the name; its body holds nested sequences whose flat form
/// is the body of the translated function; and each local of the translated
/// function is a local of its type of the module.
pub open spec fn renders(
    function: FunctionView,
    locals: Map<LocalRef, ValType>,
    record: FunctionRecordView,
) -> bool {
    &&& record.body is Some
    &&& function.builder.params == record.params
    &&& function.builder.results == record.results
    &&& function.builder.name == Some(record.name)
    &&& exists|tree: Vec<Node>, refs: Seq<LocalRef>|
        rendering(function, locals, record.body->Some_0, tree, refs)
}

/// Does a function of `walrus` hold the nested sequences `tree` for the body
/// of a translated function, with the locals `refs` of the module for its
/// locals?
pub open spec fn rendering(
    function: FunctionView,
    locals: Map<LocalRef, ValType>,
    body: FunctionBodyView,
    tree: Vec<Node>,
    refs: Seq<LocalRef>,
) -> bool {
    &&& holds(
        function.builder.seqs,
        function.builder.body,
        tree,
        tree.len() as nat,
        Map::empty(),
        refs,
        Set::empty(),
    )
    &&& flat_all(tree) == body.instrs
    &&& refs.len() == body.locals.len()
    &&& forall|i: int|
        0 <= i < refs.len() ==> locals.contains_key(#[trigger] refs[i]) && locals[refs[i]]
            == body.locals[i]
    &&& function.args.len() == body.args.len()
    &&& forall|i: int|
        0 <= i < body.args.len() ==> (#[trigger] body.args[i]) < refs.len() && function.args[i]
            == refs[body.args[i] as int]
}

/// Do the arguments of a body arrive in locals of the types of the
/// parameters?
pub open spec fn args_match(body: FunctionBodyView, params: Seq<ValType>) -> bool {
    &&& body.args.len() == params.len()
    &&& forall|i: int|
        0 <= i < params.len() ==> (#[trigger] body.args[i]) < body.locals.len()
            && body.locals[body.args[i] as int] == params[i]
}

/// Why a declared function cannot get a body: the function was not
/// declared, it got a body already, the arguments of the body do not arrive
/// in locals of the types that the function was declared with, or the body
/// has a defect, see [`body_defect`].
pub open spec fn body_rejection(
    functions: Seq<FunctionRecordView>,
    func_id: usize,
    body: FunctionBodyView,
) -> Option<TranslationError> {
    if func_id >= functions.len() {
        Some(TranslationError::UndeclaredFunction(func_id))
    } else if functions[func_id as int].body is Some {
        Some(TranslationError::DefinedTwice(func_id))
    } else if !args_match(body, functions[func_id as int].params) {
        Some(TranslationError::SignatureMismatch(func_id))
    } else {
        body_defect(body.instrs, body.locals.len())
    }
}

/// The body with which a declared function is defined from a source function
/// whose control flow has the given shape, or why it is not: the function was
/// not declared, it was defined already, it cannot be translated, see
/// [`shaped_translation`], or its body is rejected, see [`body_rejection`].
pub open spec fn definition(
    functions: Seq<FunctionRecordView>,
    func_id: usize,
    func: SourceFunction,
    shape: ShapeView,
) -> Result<FunctionBodyView, TranslationError> {
    if func_id >= functions.len() {
        Err(TranslationError::UndeclaredFunction(func_id))
    } else if functions[func_id as int].body is Some {
        Err(TranslationError::DefinedTwice(func_id))
    } else {
        match shaped_translation(func, shape) {
            Err(e) => Err(e),
            Ok(body) => match body_rejection(functions, func_id, body) {
                Some(e) => Err(e),
                None => Ok(body),
            },
        }
    }
}

/// How the definition of a function with a body changes what a module holds:
/// the function has the body, and nothing else changes. The function of
/// `walrus` that stood for the function now renders it, see [`module_wf`].
pub open spec fn defined(
    before: WasmModuleView,
    after: WasmModuleView,
    func_id: usize,
    body: FunctionBodyView,
) -> bool {
    &&& after.functions == before.functions.update(
        func_id as int,
        FunctionRecordView { body: Some(body), ..before.functions[func_id as int] },
    )
    &&& after.exports == before.exports
    &&& after.data == before.data
}

/// Does a function of `walrus` stand for a function of the module? It
/// renders the function if it was defined, see [`renders`], and else awaits
/// its definition, see [`awaits`].
pub open spec fn stands(
    function: FunctionView,
    locals: Map<LocalRef, ValType>,
    record: FunctionRecordView,
) -> bool {
    if record.body is Some {
        renders(function, locals, record)
    } else {
        awaits(function, record)
    }
}

/// Is a module of `walrus` the rendering of what was declared and defined?
///
/// - It has one memory of [`MEMORY_PAGES`] pages.
/// - Every function that was declared has a function of it of its own that
///   stands for it, see [`stands`].
/// - It exports the functions that were declared for export, each of them,
///   under their names and in the order of their declaration.
/// - It holds the data segments, each once.
pub open spec fn module_wf(view: WasmModuleView, module: ModuleView) -> bool {
    &&& module.memories == seq![
        MemoryView { shared: false, initial: MEMORY_PAGES, maximum: None },
    ]
    &&& forall|i: int|
        0 <= i < view.functions.len() ==> module.functions.contains_key(
            (#[trigger] view.functions[i]).function,
        ) && stands(module.functions[view.functions[i].function], module.locals, view.functions[i])
    &&& forall|i: int, j: int|
        0 <= i < j < view.functions.len() ==> (#[trigger] view.functions[i]).function != (
        #[trigger] view.functions[j]).function
    &&& forall|i: int|
        0 <= i < view.functions.len() && (#[trigger] view.functions[i]).linkage == Linkage::Export
            ==> exists|k: int| 0 <= k < view.exports.len() && #[trigger] view.exports[k] == i
    &&& module.exports.len() == view.exports.len()
    &&& forall|k: int|
        0 <= k < view.exports.len() ==> {
            let id = #[trigger] view.exports[k];
            &&& id < view.functions.len()
            &&& view.functions[id as int].linkage == Linkage::Export
            &&& module.exports[k] == (
                view.functions[id as int].name,
                view.functions[id as int].function,
            )
        }
    &&& forall|i: int|
        0 <= i < view.data.len() ==> module.data.contains_key(#[trigger] view.data[i])
    &&& forall|i: int, j: int|
        0 <= i < j < view.data.len() ==> #[trigger] view.data[i] != #[trigger] view.data[j]
}

/// How the declaration of a function changes what a module holds, and the
/// module as `walrus` holds it.
///
/// The function is the last of the module, without a body. A function of
/// `walrus` that the module did not have stands for it: it has the name and
/// the signature, and an empty body, see [`awaits`]. For the linkage
/// `Export` the module exports this function under the name, after what it
/// exported before. Nothing else changes.
pub open spec fn declared(
    before: WasmModuleView,
    after: WasmModuleView,
    rendered: ModuleView,
    rendering: ModuleView,
    name: Seq<char>,
    linkage: Linkage,
    params: Seq<ValType>,
    results: Seq<ValType>,
) -> bool {
    let id = before.functions.len();
    let function = after.functions.last().function;
    let record = FunctionRecordView { name, linkage, params, results, body: None, function };
    &&& after.functions == before.functions.push(record)
    &&& after.exports == if linkage == Linkage::Export {
        before.exports.push(id as usize)
    } else {
        before.exports
    }
    &&& after.data == before.data
    &&& !rendered.functions.contains_key(function)
    &&& rendering.functions.dom() == rendered.functions.dom().insert(function)
    &&& forall|f: FunctionRef| #[trigger]
        rendered.functions.contains_key(f) ==> rendering.functions[f] == rendered.functions[f]
    &&& awaits(rendering.functions[function], record)
    &&& rendering.exports == if linkage == Linkage::Export {
        rendered.exports.push((name, function))
    } else {
        rendered.exports
    }
    &&& rendering.locals == rendered.locals
    &&& rendering.memories == rendered.memories
    &&& rendering.data == rendered.data
}

/// A function keeps rendering a translated function while the locals of
/// the module keep their types.
proof fn lemma_renders_stable(
    function: FunctionView,
    locals: Map<LocalRef, ValType>,
    more: Map<LocalRef, ValType>,
    record: FunctionRecordView,
)
    requires
        renders(function, locals, record),
        forall|local: LocalRef| #[trigger]
            locals.contains_key(local) ==> more.contains_key(local) && more[local]
                == locals[local],
    ensures
        renders(function, more, record),
{
    let (tree, refs) = choose|tree: Vec<Node>, refs: Seq<LocalRef>|
        rendering(function, locals, record.body->Some_0, tree, refs);
    assert forall|i: int| 0 <= i < refs.len() implies more.contains_key(#[trigger] refs[i])
        && more[refs[i]] == record.body->Some_0.locals[i] by {
        assert(locals.contains_key(refs[i]));
    }
    assert(rendering(function, more, record.body->Some_0, tree, refs));
}

/// Do the arguments of a body arrive in locals of the types of the
/// parameters?
#[verifier::loop_isolation(false)]
fn check_args(body: &FunctionBody, params: &Vec<ValType>) -> (r: bool)
    ensures
        r == args_match(body@, params@),
{
    if body.args.len() != params.len() {
        return false;
    }
    let mut i: usize = 0;
    while i < params.len()
        invariant
            i <= params.len(),
            body.args@.len() == params@.len(),
            forall|j: int|
                0 <= j < i ==> (#[trigger] body.args@[j]) < body.locals@.len()
                    && body.locals@[body.args@[j] as int] == params@[j],
        decreases params.len() - i,
    {
        let local = body.args[i];
        if local >= body.locals.len() {
            assert(!(body@.args[i as int] < body@.locals.len()));
            return false;
        }
        if body.locals[local] != params[i] {
            assert(!(body@.locals[body@.args[i as int] as int] == params@[i as int]));
            return false;
        }
        i += 1;
    }
    true
}

/// Gives the module a local for each local of a body.
#[verifier::loop_isolation(false)]
fn add_locals(module: &mut walrus::Module, types: &Vec<ValType>) -> (refs: Vec<LocalRef>)
    ensures
        refs@.len() == types@.len(),
        module_view(*final(module)) == (ModuleView {
            locals: module_view(*final(module)).locals,
            ..module_view(*old(module))
        }),
        forall|local: LocalRef| #[trigger]
            module_view(*old(module)).locals.contains_key(local) ==> module_view(
                *final(module),
            ).locals.contains_key(local) && module_view(*final(module)).locals[local]
                == module_view(*old(module)).locals[local],
        forall|i: int|
            0 <= i < refs@.len() ==> module_view(*final(module)).locals.contains_key(
                #[trigger] refs@[i],
            ) && module_view(*final(module)).locals[refs@[i]] == types@[i],
{
    let ghost before = module_view(*module);
    let mut refs: Vec<LocalRef> = Vec::new();
    let mut i: usize = 0;
    while i < types.len()
        invariant
            i <= types.len(),
            refs@.len() == i,
            module_view(*module) == (ModuleView {
                locals: module_view(*module).locals,
                ..before
            }),
            forall|local: LocalRef| #[trigger]
                before.locals.contains_key(local) ==> module_view(*module).locals.contains_key(
                    local,
                ) && module_view(*module).locals[local] == before.locals[local],
            forall|j: int|
                0 <= j < i ==> module_view(*module).locals.contains_key(#[trigger] refs@[j])
                    && module_view(*module).locals[refs@[j]] == types@[j],
        decreases types.len() - i,
    {
        let ghost now = module_view(*module);
        let ghost done = refs@;
        let local = add_local(module, types[i]);
        refs.push(local);
        assert forall|j: int| 0 <= j < i + 1 implies module_view(*module).locals.contains_key(
            #[trigger] refs@[j],
        ) && module_view(*module).locals[refs@[j]] == types@[j] by {
            if j < i {
                assert(refs@[j] == done[j]);
                assert(now.locals.contains_key(done[j]));
            }
        }
        i += 1;
    }
    refs
}

/// The locals of the module for the locals that receive the arguments.
#[verifier::loop_isolation(false)]
fn arg_refs(args: &Vec<LocalId>, refs: &Vec<LocalRef>) -> (r: Vec<LocalRef>)
    requires
        forall|i: int| 0 <= i < args@.len() ==> (#[trigger] args@[i]) < refs@.len(),
    ensures
        r@.len() == args@.len(),
        forall|i: int| 0 <= i < args@.len() ==> #[trigger] r@[i] == refs@[args@[i] as int],
{
    let mut out: Vec<LocalRef> = Vec::new();
    let mut i: usize = 0;
    while i < args.len()
        invariant
            i <= args.len(),
            out@.len() == i,
            forall|j: int| 0 <= j < i ==> #[trigger] out@[j] == refs@[args@[j] as int],
        decreases args.len() - i,
    {
        assert(args@[i as int] < refs@.len());
        out.push(refs[args[i]]);
        i += 1;
    }
    out
}

impl WasmModule {
    /// The mathematical content of the module.
    pub closed spec fn view(&self) -> WasmModuleView {
        WasmModuleView {
            functions: self.functions@.map_values(|record: FunctionRecord| record@),
            exports: self.exports@,
            data: self.data@,
        }
    }

    /// The module as `walrus` holds it.
    pub closed spec fn rendered(&self) -> walrus::Module {
        self.module
    }

    /// Is the module as `walrus` holds it the rendering of what was declared
    /// and defined? See [`module_wf`].
    pub open spec fn wf(&self) -> bool {
        module_wf(self@, module_view(self.rendered()))
    }

    /// The bytes of the data segments, in the order of their declaration.
    pub open spec fn segments(&self) -> Seq<Seq<u8>> {
        self@.data.map_values(|data: DataRef| module_view(self.rendered()).data[data])
    }

    /// The views of the records are the functions of the view.
    proof fn lemma_view(&self)
        ensures
            self@.functions.len() == self.functions@.len(),
            forall|i: int|
                0 <= i < self.functions@.len() ==> #[trigger] self@.functions[i]
                    == self.functions@[i]@,
            self@.functions == self.functions@.map_values(|record: FunctionRecord| record@),
    {
    }

    /// Constructs a new WebAssembly module, which has a memory and nothing
    /// else.
    pub fn new(config: walrus::ModuleConfig) -> (r: Self)
        ensures
            r.wf(),
            r@.functions.len() == 0,
            r@.exports.len() == 0,
            r@.data.len() == 0,
    {
        let mut module = new_module();
        add_memory(&mut module, false, MEMORY_PAGES, None);
        WasmModule { module, config, functions: Vec::new(), exports: Vec::new(), data: Vec::new() }
    }

    /// Declares a function under a name, which gets the next function id.
    /// The function can be local to the module or exported; the other
    /// linkages are reserved. The types of the signature must have
    /// counterparts on the target.
    ///
    /// The module gets a function of the name and the signature, whose body
    /// is empty until the function is defined, and exports it under the name
    /// if the linkage says so, see [`declared`]. On failure nothing changes.
    pub fn declare_function(&mut self, name: &str, linkage: Linkage, signature: &Signature) -> (r:
        Result<usize, TranslationError>)
        requires
            old(self).wf(),
        ensures
            final(self).wf(),
            final(self).segments() == old(self).segments(),
            match linkage {
                Linkage::Local | Linkage::Export => match wasm_signature(*signature) {
                    Ok((params, results)) => {
                        &&& r == Ok::<usize, TranslationError>(old(self)@.functions.len() as usize)
                        &&& declared(
                            old(self)@,
                            final(self)@,
                            module_view(old(self).rendered()),
                            module_view(final(self).rendered()),
                            name@,
                            linkage,
                            params,
                            results,
                        )
                    },
                    Err(e) => r == Err::<usize, TranslationError>(e) && final(self)@ == old(
                        self,
                    )@ && final(self).rendered() == old(self).rendered(),
                },
                _ => r == Err::<usize, TranslationError>(TranslationError::UnsupportedLinkage)
                    && final(self)@ == old(self)@ && final(self).rendered() == old(
                    self,
                ).rendered(),
            },
    {
        match linkage {
            Linkage::Local | Linkage::Export => {},
            _ => {
                return Err(TranslationError::UnsupportedLinkage);
            },
        }
        let (params, results) = wasm_of_sig(signature)?;
        let id = self.functions.len();
        let ghost shown = self@;
        let ghost before = module_view(self.module);
        let mut builder = new_builder(&mut self.module, &params, &results);
        set_name(&mut builder, name);
        let ghost built = builder_view(builder);
        let function = finish_function(&mut self.module, builder, Vec::new());
        let exported = match linkage {
            Linkage::Export => true,
            _ => false,
        };
        if exported {
            export_function(&mut self.module, name, function);
            self.exports.push(id);
        }
        let record = FunctionRecord {
            name: name.to_string(),
            linkage,
            params,
            results,
            body: None,
            function,
        };
        self.functions.push(record);
        proof {
            self.lemma_view();
            let now = self@;
            let module = module_view(self.module);
            let rendered = module.functions[function];
            assert(now.functions =~= shown.functions.push(record@));
            assert(now.functions.last() == record@);
            assert(module.functions.dom() =~= before.functions.dom().insert(function));
            assert(rendered.builder == built);
            assert(rendered.args =~= Seq::<LocalRef>::empty());
            assert(awaits(rendered, record@));
            assert forall|i: int| 0 <= i < now.functions.len() implies module.functions.contains_key(
                (#[trigger] now.functions[i]).function,
            ) && stands(
                module.functions[now.functions[i].function],
                module.locals,
                now.functions[i],
            ) by {
                if i < shown.functions.len() {
                    assert(now.functions[i] == shown.functions[i]);
                    assert(before.functions.contains_key(shown.functions[i].function));
                }
            }
            assert forall|i: int, j: int| 0 <= i < j < now.functions.len() implies (
            #[trigger] now.functions[i]).function != (#[trigger] now.functions[j]).function by {
                assert(now.functions[i] == shown.functions[i]);
                assert(before.functions.contains_key(shown.functions[i].function));
                if j < shown.functions.len() {
                    assert(now.functions[j] == shown.functions[j]);
                }
            }
            assert forall|i: int|
                0 <= i < now.functions.len() && (#[trigger] now.functions[i]).linkage
                    == Linkage::Export implies exists|k: int|
                0 <= k < now.exports.len() && #[trigger] now.exports[k] == i by {
                if i < shown.functions.len() {
                    assert(now.functions[i] == shown.functions[i]);
                    let k = choose|k: int|
                        0 <= k < shown.exports.len() && #[trigger] shown.exports[k] == i;
                    assert(now.exports[k] == i);
                } else {
                    assert(now.exports[now.exports.len() - 1] == i);
                }
            }
            assert forall|k: int| 0 <= k < now.exports.len() implies {
                let id = #[trigger] now.exports[k];
                &&& id < now.functions.len()
                &&& now.functions[id as int].linkage == Linkage::Export
                &&& module.exports[k] == (
                    now.functions[id as int].name,
                    now.functions[id as int].function,
                )
            } by {
                if k < shown.exports.len() {
                    let id = shown.exports[k];
                    assert(now.exports[k] == id);
                    assert(now.functions[id as int] == shown.functions[id as int]);
                    assert(module.exports[k] == before.exports[k]);
                }
            }
            assert(now.data == shown.data);
            assert forall|i: int| 0 <= i < now.data.len() implies module.data.contains_key(
                #[trigger] now.data[i],
            ) by {
                assert(before.data.contains_key(shown.data[i]));
            }
            assert forall|i: int, j: int| 0 <= i < j < now.data.len() implies #[trigger] now.data[i]
                != #[trigger] now.data[j] by {
                assert(shown.data[i] != shown.data[j]);
            }
            assert(self.segments() =~= old(self).segments());
        }
        Ok(id)
    }

    /// Defines a declared function from its source form and the shape of
    /// its control flow: the function is translated, and its body is built
    /// up in the module.
    ///
    /// On success the function has the body that [`definition`] gives, and
    /// the module changes as [`defined`] says. On failure nothing changes.
    pub fn define_function(
        &mut self,
        func_id: usize,
        func: &SourceFunction,
        structured: &ShapedBlock,
    ) -> (r: Result<ModuleCompiledFunction, TranslationError>)
        requires
            old(self).wf(),
        ensures
            final(self).wf(),
            final(self).segments() == old(self).segments(),
            match definition(old(self)@.functions, func_id, *func, shape_view(*structured)) {
                Ok(body) => {
                    &&& r == Ok::<ModuleCompiledFunction, TranslationError>(
                        ModuleCompiledFunction { size: 0 },
                    )
                    &&& defined(old(self)@, final(self)@, func_id, body)
                },
                Err(e) => {
                    &&& r == Err::<ModuleCompiledFunction, TranslationError>(e)
                    &&& final(self)@ == old(self)@
                    &&& final(self).rendered() == old(self).rendered()
                },
            },
    {
        if func_id >= self.functions.len() {
            return Err(TranslationError::UndeclaredFunction(func_id));
        }
        proof {
            self.lemma_view();
        }
        if self.functions[func_id].body.is_some() {
            return Err(TranslationError::DefinedTwice(func_id));
        }
        let body = translate_shape(func, structured)?;
        self.define_body(func_id, body)
    }

    /// Defines a declared function with a body: the body is built up in the
    /// module.
    ///
    /// A body is rejected as [`body_rejection`] says, and nothing changes
    /// then. Otherwise the function has the body, and the module changes as
    /// [`defined`] says.
    pub fn define_body(&mut self, func_id: usize, body: FunctionBody) -> (r: Result<
        ModuleCompiledFunction,
        TranslationError,
    >)
        requires
            old(self).wf(),
        ensures
            final(self).wf(),
            final(self).segments() == old(self).segments(),
            match body_rejection(old(self)@.functions, func_id, body@) {
                None => {
                    &&& r == Ok::<ModuleCompiledFunction, TranslationError>(
                        ModuleCompiledFunction { size: 0 },
                    )
                    &&& defined(old(self)@, final(self)@, func_id, body@)
                },
                Some(e) => {
                    &&& r == Err::<ModuleCompiledFunction, TranslationError>(e)
                    &&& final(self)@ == old(self)@
                    &&& final(self).rendered() == old(self).rendered()
                },
            },
    {
        if func_id >= self.functions.len() {
            return Err(TranslationError::UndeclaredFunction(func_id));
        }
        proof {
            self.lemma_view();
        }
        if self.functions[func_id].body.is_some() {
            return Err(TranslationError::DefinedTwice(func_id));
        }
        if !check_args(&body, &self.functions[func_id].params) {
            return Err(TranslationError::SignatureMismatch(func_id));
        }
        let tree = parse_body(&body.instrs, body.locals.len())?;
        let ghost shown = self@;
        let ghost before = module_view(self.module);
        let record = &self.functions[func_id];
        let function = record.function;
        assert(shown.functions[func_id as int].function == function);
        assert(stands(before.functions[function], before.locals, shown.functions[func_id as int]));
        let mut builder = new_builder(&mut self.module, &record.params, &record.results);
        set_name(&mut builder, record.name.as_str());
        let refs = add_locals(&mut self.module, &body.locals);
        let args = arg_refs(&body.args, &refs);
        let seq = body_of(&builder);
        let mut env: Vec<(InstrSeqId, SeqRef)> = Vec::new();
        let ghost empty = builder_view(builder);
        assert(env_map(env@).dom() =~= Set::<InstrSeqId>::empty());
        load_nodes(&tree, &mut builder, seq, &mut env, &refs);
        let ghost built = builder_view(builder);
        replace_function(&mut self.module, function, builder, args);
        let ghost view = body@;
        self.functions[func_id].body = Some(body);
        proof {
            self.lemma_view();
            let module = module_view(self.module);
            let rendered = module.functions[function];
            let now = self@;
            let entry = now.functions[func_id as int];
            assert(env_map(env@) =~= Map::<InstrSeqId, SeqRef>::empty());
            lemma_loaded_holds(empty, built, seq, tree, Map::empty(), refs@);
            lemma_holds_weaken(
                built.seqs,
                seq,
                tree,
                tree.len() as nat,
                Map::empty(),
                refs@,
                empty.seqs.dom(),
                Set::empty(),
            );
            assert(rendering(rendered, module.locals, view, tree, refs@));
            assert(rendered.builder == built);
            assert(entry.name == shown.functions[func_id as int].name);
            assert(entry.params == shown.functions[func_id as int].params);
            assert(entry.results == shown.functions[func_id as int].results);
            assert(entry.linkage == shown.functions[func_id as int].linkage);
            assert(entry.function == function);
            assert(entry.body == Some(view));
            assert(rendered.builder.params == entry.params);
            assert(rendered.builder.results == entry.results);
            assert(rendered.builder.name == Some(entry.name));
            assert(rendering(rendered, module.locals, entry.body->Some_0, tree, refs@));
            assert(renders(rendered, module.locals, entry));
            assert forall|i: int|
                0 <= i < now.functions.len() && i != func_id implies #[trigger] now.functions[i]
                == shown.functions[i] by {}
            assert(now.functions =~= shown.functions.update(
                func_id as int,
                FunctionRecordView { body: Some(view), ..shown.functions[func_id as int] },
            ));
            assert forall|i: int| 0 <= i < now.functions.len() implies module.functions.contains_key(
                (#[trigger] now.functions[i]).function,
            ) && stands(
                module.functions[now.functions[i].function],
                module.locals,
                now.functions[i],
            ) by {
                if i != func_id {
                    assert(now.functions[i] == shown.functions[i]);
                    let f = shown.functions[i].function;
                    assert(before.functions.contains_key(f));
                    assert(f != function) by {
                        if i < func_id {
                            assert(shown.functions[i].function != shown.functions[func_id as int].function);
                        } else {
                            assert(shown.functions[func_id as int].function != shown.functions[i].function);
                        }
                    }
                    assert(stands(before.functions[f], before.locals, shown.functions[i]));
                    if shown.functions[i].body is Some {
                        lemma_renders_stable(
                            before.functions[f],
                            before.locals,
                            module.locals,
                            shown.functions[i],
                        );
                    }
                }
            }
            assert forall|i: int, j: int| 0 <= i < j < now.functions.len() implies (
            #[trigger] now.functions[i]).function != (#[trigger] now.functions[j]).function by {
                assert(now.functions[i].function == shown.functions[i].function);
                assert(now.functions[j].function == shown.functions[j].function);
            }
            assert forall|i: int|
                0 <= i < now.functions.len() && (#[trigger] now.functions[i]).linkage
                    == Linkage::Export implies exists|k: int|
                0 <= k < now.exports.len() && #[trigger] now.exports[k] == i by {
                assert(now.functions[i].linkage == shown.functions[i].linkage);
                let k = choose|k: int|
                    0 <= k < shown.exports.len() && #[trigger] shown.exports[k] == i;
                assert(now.exports[k] == i);
            }
            assert forall|k: int| 0 <= k < now.exports.len() implies {
                let id = #[trigger] now.exports[k];
                &&& id < now.functions.len()
                &&& now.functions[id as int].linkage == Linkage::Export
                &&& module.exports[k] == (
                    now.functions[id as int].name,
                    now.functions[id as int].function,
                )
            } by {
                let id = shown.exports[k];
                assert(now.exports[k] == id);
                assert(now.functions[id as int].name == shown.functions[id as int].name);
                assert(now.functions[id as int].function == shown.functions[id as int].function);
                assert(now.functions[id as int].linkage == shown.functions[id as int].linkage);
                assert(module.exports[k] == before.exports[k]);
            }
            assert(self.segments() =~= old(self).segments());
        }
        Ok(ModuleCompiledFunction { size: 0 })
    }

    /// Hands the module out as `walrus` holds it, to be encoded or looked
    /// at: the rendering of what was declared and defined, see
    /// [`module_wf`].
    pub fn into_walrus(self) -> (r: walrus::Module)
        ensures
            r == self.rendered(),
    {
        self.module
    }

    /// The body of a function, once the function was defined.
    pub fn body(&self, func_id: usize) -> (r: Option<&FunctionBody>)
        ensures
            match r {
                Some(body) => func_id < self@.functions.len() && self@.functions[func_id as int].body
                    == Some(body@),
                None => func_id >= self@.functions.len() || self@.functions[func_id as int].body
                    is None,
            },
    {
        if func_id >= self.functions.len() {
            return None;
        }
        proof {
            self.lemma_view();
        }
        match &self.functions[func_id].body {
            Some(body) => Some(body),
            None => None,
        }
    }

    /// The module as `walrus` holds it.
    pub fn walrus_module(&self) -> (r: &walrus::Module)
        ensures
            *r == self.rendered(),
    {
        &self.module
    }

    /// Declares a data segment, which gets the next data id and is empty.
    pub fn declare_anonymous_data(&mut self, writable: bool, tls: bool) -> (r: usize)
        requires
            old(self).wf(),
        ensures
            final(self).wf(),
            r == old(self)@.data.len(),
            final(self)@.functions == old(self)@.functions,
            final(self)@.exports == old(self)@.exports,
            final(self).segments() == old(self).segments().push(Seq::empty()),
    {
        let ghost before = module_view(self.module);
        let ghost known = self.data@;
        let ghost shown = self@;
        let id = self.data.len();
        let data = add_data(&mut self.module, Vec::new());
        self.data.push(data);
        proof {
            let module = module_view(self.module);
            assert(shown.data == known);
            assert forall|i: int| 0 <= i < known.len() implies before.data.contains_key(
                #[trigger] known[i],
            ) by {
                assert(before.data.contains_key(shown.data[i]));
            }
            assert forall|i: int| 0 <= i < self.data@.len() implies module.data.contains_key(
                #[trigger] self.data@[i],
            ) by {
                if i < known.len() {
                    assert(self.data@[i] == known[i]);
                    assert(before.data.contains_key(known[i]));
                }
            }
            assert forall|i: int, j: int| 0 <= i < j < self.data@.len() implies #[trigger] self.data@[i]
                != #[trigger] self.data@[j] by {
                assert(self.data@[i] == known[i]);
                assert(before.data.contains_key(known[i]));
                if j < known.len() {
                    assert(self.data@[j] == known[j]);
                }
            }
            assert(self.segments() =~= old(self).segments().push(Seq::empty())) by {
                assert forall|i: int| 0 <= i < self.data@.len() implies self.segments()[i] == old(
                    self,
                ).segments().push(Seq::empty())[i] by {
                    if i < known.len() {
                        assert(self.data@[i] == known[i]);
                        assert(before.data.contains_key(known[i]));
                    }
                }
            }
        }
        id
    }

    /// Declares a data segment under a name. The name is not kept.
    pub fn declare_data(&mut self, name: &str, linkage: Linkage, writable: bool, tls: bool) -> (r:
        usize)
        requires
            old(self).wf(),
        ensures
            final(self).wf(),
            r == old(self)@.data.len(),
            final(self)@.functions == old(self)@.functions,
            final(self)@.exports == old(self)@.exports,
            final(self).segments() == old(self).segments().push(Seq::empty()),
    {
        self.declare_anonymous_data(writable, tls)
    }

    /// Gives a declared data segment its content: zero bytes, or the bytes
    /// given. A segment without content is not implemented.
    pub fn define_data(&mut self, data: usize, init: Init) -> (r: Result<(), TranslationError>)
        requires
            old(self).wf(),
        ensures
            final(self).wf(),
            final(self)@ == old(self)@,
            match data_content(old(self).segments(), data, init) {
                Ok(bytes) => r is Ok && final(self).segments() == old(self).segments().update(
                    data as int,
                    bytes,
                ),
                Err(e) => r == Err::<(), TranslationError>(e) && final(self).rendered() == old(
                    self,
                ).rendered(),
            },
    {
        if data >= self.data.len() {
            return Err(TranslationError::UndeclaredData(data));
        }
        let bytes = match init {
            Init::Uninitialized => {
                return Err(TranslationError::UninitializedData(data));
            },
            Init::Zeros { size } => zeros(size),
            Init::Bytes { contents } => contents,
        };
        let ghost before = module_view(self.module);
        let ghost content = bytes@;
        let ghost shown = self@;
        let segment = self.data[data];
        assert(shown.data == self.data@);
        assert(before.data.contains_key(shown.data[data as int]));
        set_data(&mut self.module, segment, bytes);
        proof {
            let module = module_view(self.module);
            assert forall|i: int| 0 <= i < self.data@.len() implies module.data.contains_key(
                #[trigger] self.data@[i],
            ) by {
                assert(before.data.contains_key(shown.data[i]));
            }
            assert(self.segments() =~= old(self).segments().update(data as int, content)) by {
                assert forall|i: int| 0 <= i < self.data@.len() implies self.segments()[i] == old(
                    self,
                ).segments().update(data as int, content)[i] by {
                    if i < data {
                        assert(shown.data[i] != shown.data[data as int]);
                    }
                    if i > data {
                        assert(shown.data[data as int] != shown.data[i]);
                    }
                }
            }
        }
        Ok(())
    }
}

/// The bytes that a declared data segment gets, or why it gets none: it was
/// not declared, or no content was given.
pub open spec fn data_content(segments: Seq<Seq<u8>>, data: usize, init: Init) -> Result<
    Seq<u8>,
    TranslationError,
> {
    if data >= segments.len() {
        Err(TranslationError::UndeclaredData(data))
    } else {
        match init {
            Init::Uninitialized => Err(TranslationError::UninitializedData(data)),
            Init::Zeros { size } => Ok(Seq::new(size as nat, |i: int| 0u8)),
            Init::Bytes { contents } => Ok(contents@),
        }
    }
}

/// This many zero bytes.
#[verifier::loop_isolation(false)]
fn zeros(size: usize) -> (r: Vec<u8>)
    ensures
        r@ == Seq::new(size as nat, |i: int| 0u8),
{
    let mut bytes: Vec<u8> = Vec::new();
    let mut i: usize = 0;
    while i < size
        invariant
            i <= size,
            bytes@ == Seq::new(i as nat, |j: int| 0u8),
        decreases size - i,
    {
        bytes.push(0);
        assert(bytes@ =~= Seq::new((i + 1) as nat, |j: int| 0u8));
        i += 1;
    }
    bytes
}

} // verus!
