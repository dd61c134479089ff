//! A WebAssembly back-end for a block-structured SSA intermediate
//! representation.
//!
//! A function arrives as a control-flow graph of basic blocks in SSA form
//! ([`ir::SourceFunction`]). Its control-flow graph is prepared for
//! restructuring ([`shaping_input`]), which is left to the caller, who hands
//! the graph to `relooper::reloop`. With the tree of simple blocks, loops and
//! selectors that the restructuring gives ([`shape::ShapedBlock`]), the
//! instructions of the function are lowered to stack operations
//! ([`translate_shape`]), and the result is built up in a module of `walrus`
//! ([`WasmModule`]), which is handed out to be encoded as WebAssembly bytes.
//!
//! What is emitted is stated by specification functions, which the executable
//! functions are proved to follow: [`translator::shaped_translation`] for a
//! whole function, [`translator::lowered_shape`] for a shape of the control flow,
//! [`conversions::block::lowered_block`] for a block, and
//! [`conversions::inst::lowered_value`] for a value. What holds of every
//! translation is proved in [`laws`]. The crate `walrus` is called through
//! the items of [`walrus_api`], whose contracts are taken on trust; the edge
//! kinds of a shape are those of the crate `relooper`.

pub mod assemble;
pub mod assoc;
pub mod conversions;
pub mod emission;
pub mod error;
pub mod graph;
pub mod ir;
pub mod laws;
pub mod module;
pub mod optable;
pub mod reach;
pub mod shape;
pub mod target;
pub mod translator;
pub mod walrus_api;

pub use crate::conversions::block::{build_from_pos, build_wasm_block, BranchInstr, CanBranchTo};
pub use crate::conversions::inst::{build_wasm_inst, translate_value};
pub use crate::error::TranslationError;
pub use crate::module::{Init, Linkage, ModuleCompiledFunction, WasmModule};
pub use crate::optable::{Operand, OperandTable};
pub use crate::translator::{
    has_next, shaping_input, translate_shape, FunctionBody, IndividualFunctionTranslator,
};
