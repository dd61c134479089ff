use wasm_backend::ir::{
    AbiParam, BlockData, InstData, InstructionData, IntCC, Opcode, Signature, SourceFunction, Type,
    TypeKind, ValueData, ValueDef,
};
use wasm_backend::{Linkage, WasmModule};

/// A shape as `relooper` hands it out, in the types of the library, with the
/// edges of each block in the order of their destinations.
fn shaped(raw: relooper::ShapedBlock<u32>) -> wasm_backend::shape::ShapedBlock {
    let boxed = |inner: Box<relooper::ShapedBlock<u32>>| Box::new(shaped(*inner));
    match raw {
        relooper::ShapedBlock::Simple(s) => {
            let mut branches: Vec<(u32, relooper::BranchMode)> = s.branches.into_iter().collect();
            branches.sort_by_key(|entry| entry.0);
            wasm_backend::shape::ShapedBlock::Simple(wasm_backend::shape::SimpleBlock {
                label: s.label,
                immediate: s.immediate.map(boxed),
                branches,
                next: s.next.map(boxed),
            })
        }
        relooper::ShapedBlock::Loop(l) => {
            wasm_backend::shape::ShapedBlock::Loop(wasm_backend::shape::LoopBlock {
                loop_id: l.loop_id,
                inner: boxed(l.inner),
                next: l.next.map(boxed),
            })
        }
        relooper::ShapedBlock::Multiple(m) => {
            wasm_backend::shape::ShapedBlock::Multiple(wasm_backend::shape::MultipleBlock {
                handled: m
                    .handled
                    .into_iter()
                    .map(|h| wasm_backend::shape::HandledBlock {
                        labels: h.labels,
                        inner: shaped(h.inner),
                        break_after: h.break_after,
                    })
                    .collect(),
            })
        }
    }
}

/// The shape of the control flow of a function, as `relooper` computes it
/// for the blocks that are reached.
fn shape_of(
    func: &wasm_backend::ir::SourceFunction,
) -> Result<wasm_backend::shape::ShapedBlock, wasm_backend::TranslationError> {
    let (graph, first) = wasm_backend::shaping_input(func)?;
    Ok(shaped(*relooper::reloop(graph, first)))
}

/// Defines a function of a module with the shape that `relooper` computes
/// for it.
fn define(
    module: &mut wasm_backend::WasmModule,
    id: usize,
    func: &wasm_backend::ir::SourceFunction,
) -> Result<wasm_backend::ModuleCompiledFunction, wasm_backend::TranslationError> {
    let shape = shape_of(func)?;
    module.define_function(id, func, &shape)
}


const I32: Type = Type { kind: TypeKind::Int, bits: 32 };
const B1: Type = Type { kind: TypeKind::Bool, bits: 1 };

/// Builds a source function block by block, as a front-end would.
struct Builder {
    func: SourceFunction,
}

impl Builder {
    fn new(params: &[Type], returns: &[Type]) -> Builder {
        let abi = |types: &[Type]| types.iter().map(|ty| AbiParam { value_type: *ty }).collect();
        Builder {
            func: SourceFunction {
                signature: Signature { params: abi(params), returns: abi(returns) },
                values: vec![],
                insts: vec![],
                layout: vec![],
            },
        }
    }

    fn block(&mut self, block: u32, params: &[Type]) -> Vec<u32> {
        let mut values = vec![];
        for (n, ty) in params.iter().enumerate() {
            values.push(self.func.values.len() as u32);
            self.func.values.push(ValueData { ty: *ty, def: ValueDef::Param(block, n) });
        }
        self.func.layout.push(BlockData { block, params: values.clone(), insts: vec![] });
        values
    }

    fn inst(&mut self, block: u32, data: InstructionData, result: Option<Type>) -> u32 {
        let inst = self.func.insts.len() as u32;
        let value = self.func.values.len() as u32;
        let mut results = vec![];
        if let Some(ty) = result {
            self.func.values.push(ValueData { ty, def: ValueDef::Result(inst, 0) });
            results.push(value);
        }
        self.func.insts.push(InstData { data, results });
        let at = self.func.layout.iter().position(|b| b.block == block).unwrap();
        self.func.layout[at].insts.push(inst);
        value
    }

    fn iconst(&mut self, block: u32, ty: Type, imm: i64) -> u32 {
        self.inst(block, InstructionData::UnaryImm { opcode: Opcode::Iconst, imm }, Some(ty))
    }

    fn iadd(&mut self, block: u32, left: u32, right: u32) -> u32 {
        let ty = self.func.values[left as usize].ty;
        self.inst(block, InstructionData::Binary { opcode: Opcode::Iadd, left, right }, Some(ty))
    }

    fn isub(&mut self, block: u32, left: u32, right: u32) -> u32 {
        let ty = self.func.values[left as usize].ty;
        self.inst(block, InstructionData::Binary { opcode: Opcode::Isub, left, right }, Some(ty))
    }

    fn iadd_imm(&mut self, block: u32, arg: u32, imm: i64) -> u32 {
        let ty = self.func.values[arg as usize].ty;
        self.inst(block, InstructionData::BinaryImm64 { opcode: Opcode::IaddImm, arg, imm }, Some(ty))
    }

    fn icmp(&mut self, block: u32, cond: IntCC, left: u32, right: u32) -> u32 {
        let data = InstructionData::IntCompare { opcode: Opcode::Icmp, left, right, cond };
        self.inst(block, data, Some(B1))
    }

    fn icmp_imm(&mut self, block: u32, cond: IntCC, arg: u32, imm: i64) -> u32 {
        let data = InstructionData::IntCompareImm { opcode: Opcode::IcmpImm, arg, cond, imm };
        self.inst(block, data, Some(B1))
    }

    fn jump(&mut self, block: u32, destination: u32, args: &[u32]) {
        let data = InstructionData::Jump { opcode: Opcode::Jump, args: args.to_vec(), destination };
        self.inst(block, data, None);
    }

    fn brz(&mut self, block: u32, cond: u32, destination: u32, args: &[u32]) {
        let mut all = vec![cond];
        all.extend_from_slice(args);
        let data = InstructionData::Branch { opcode: Opcode::Brz, args: all, destination };
        self.inst(block, data, None);
    }

    fn brnz(&mut self, block: u32, cond: u32, destination: u32, args: &[u32]) {
        let mut all = vec![cond];
        all.extend_from_slice(args);
        let data = InstructionData::Branch { opcode: Opcode::Brnz, args: all, destination };
        self.inst(block, data, None);
    }

    fn return_(&mut self, block: u32, args: &[u32]) {
        let data = InstructionData::MultiAry { opcode: Opcode::Return, args: args.to_vec() };
        self.inst(block, data, None);
    }

    fn finish(self) -> SourceFunction {
        self.func
    }
}

/// Compiles a function into a module of its own and emits the module.
fn compile(func: &SourceFunction) -> Vec<u8> {
    let mut module = WasmModule::new(walrus::ModuleConfig::new());
    let id = module
        .declare_function("func_name", Linkage::Export, &func.signature)
        .expect("failed to declare function");
    define(&mut module, id, func).expect("failed to define function");
    module.into_walrus().emit_wasm()
}

/// Runs the exported function of an emitted module on the arguments.
fn run(wasm: &[u8], params: &[i32]) -> i32 {
    let mut config = wasmtime::Config::new();
    config.memory_reservation(0);
    config.memory_reservation_for_growth(0);
    config.memory_guard_size(0);
    let engine = wasmtime::Engine::new(&config).unwrap();
    let module = wasmtime::Module::new(&engine, wasm).unwrap();
    let mut store = wasmtime::Store::new(&engine, ());
    let instance = wasmtime::Instance::new(&mut store, &module, &[]).unwrap();
    let func = instance.get_func(&mut store, "func_name").expect("function not defined!");
    let args: Vec<wasmtime::Val> = params.iter().map(|p| wasmtime::Val::I32(*p)).collect();
    let mut results = [wasmtime::Val::I32(0)];
    func.call(&mut store, &args, &mut results).unwrap();
    results[0].unwrap_i32()
}

/// Compiles a function, runs it on the arguments and checks what it returns.
fn run_test(params: &[i32], func: &SourceFunction, check: impl FnOnce(i32) -> bool) {
    let ret = run(&compile(func), params);
    assert!(check(ret), "assertion failed\nnote: the return value was {:#?}", ret);
}

/// One block: `v0 = iconst.i32 42; return v0`.
fn const_function() -> SourceFunction {
    let mut b = Builder::new(&[], &[I32]);
    b.block(0, &[]);
    let ret_value = b.iconst(0, I32, 42);
    b.return_(0, &[ret_value]);
    b.finish()
}

/// One block: `1500 + 1500`.
fn binop_function() -> SourceFunction {
    let mut b = Builder::new(&[], &[I32]);
    b.block(0, &[]);
    let left = b.iconst(0, I32, 1500);
    let right = b.iconst(0, I32, 1500);
    let ret = b.iadd(0, left, right);
    b.return_(0, &[ret]);
    b.finish()
}

/// `i = 100; while i != 0 { i -= 1 }; return i`, with the loop variable as
/// the parameter of the header block.
fn control_flow_function() -> SourceFunction {
    let mut b = Builder::new(&[], &[I32]);
    b.block(0, &[]);
    let zero = b.iconst(0, I32, 0);
    let iteration_val = b.iconst(0, I32, 100);
    let add_res = b.iadd(0, zero, iteration_val);
    b.jump(0, 1, &[add_res]);
    let iteration = b.block(1, &[I32])[0];
    let condition = b.icmp(1, IntCC::Equal, iteration, zero);
    b.brz(1, condition, 3, &[]);
    b.jump(1, 2, &[]);
    b.block(2, &[]);
    let one = b.iconst(2, I32, 1);
    let sub_res = b.isub(2, iteration, one);
    b.jump(2, 1, &[sub_res]);
    b.block(3, &[]);
    b.return_(3, &[iteration]);
    b.finish()
}

/// Returns the first argument if it is zero, else the second.
fn branching_function() -> SourceFunction {
    let mut b = Builder::new(&[I32, I32], &[I32]);
    let args = b.block(0, &[I32, I32]);
    b.brz(0, args[0], 1, &[]);
    b.jump(0, 2, &[]);
    b.block(1, &[]);
    b.return_(1, &[args[0]]);
    b.block(2, &[]);
    b.return_(2, &[args[1]]);
    b.finish()
}

/// `(10 + 5) - 3`.
fn expr_function() -> SourceFunction {
    let mut b = Builder::new(&[], &[I32]);
    b.block(0, &[]);
    let ten = b.iconst(0, I32, 10);
    let sum = b.iadd_imm(0, ten, 5);
    let three = b.iconst(0, I32, 3);
    let ret = b.isub(0, sum, three);
    b.return_(0, &[ret]);
    b.finish()
}

/// Counts its argument down to zero and returns what is left.
fn loop_function() -> SourceFunction {
    let mut b = Builder::new(&[I32], &[I32]);
    let n = b.block(0, &[I32])[0];
    b.jump(0, 1, &[n]);
    let i = b.block(1, &[I32])[0];
    b.brz(1, i, 3, &[]);
    b.jump(1, 2, &[]);
    b.block(2, &[]);
    let one = b.iconst(2, I32, 1);
    let less = b.isub(2, i, one);
    b.jump(2, 1, &[less]);
    b.block(3, &[]);
    b.return_(3, &[i]);
    b.finish()
}

/// The sum of the two arguments.
fn iadd_function() -> SourceFunction {
    let mut b = Builder::new(&[I32, I32], &[I32]);
    let args = b.block(0, &[I32, I32]);
    let ret = b.iadd(0, args[0], args[1]);
    b.return_(0, &[ret]);
    b.finish()
}

/// The difference of the two arguments.
fn isub_function() -> SourceFunction {
    let mut b = Builder::new(&[I32, I32], &[I32]);
    let args = b.block(0, &[I32, I32]);
    let ret = b.isub(0, args[0], args[1]);
    b.return_(0, &[ret]);
    b.finish()
}

/// Whether the two arguments are equal.
fn eq_function() -> SourceFunction {
    let mut b = Builder::new(&[I32, I32], &[I32]);
    let args = b.block(0, &[I32, I32]);
    let ret = b.icmp(0, IntCC::Equal, args[0], args[1]);
    b.return_(0, &[ret]);
    b.finish()
}

/// Returns `1` if the argument is not zero, else `2`.
fn brnz_function() -> SourceFunction {
    let mut b = Builder::new(&[I32], &[I32]);
    let arg = b.block(0, &[I32])[0];
    b.brnz(0, arg, 1, &[]);
    b.jump(0, 2, &[]);
    b.block(1, &[]);
    let one = b.iconst(1, I32, 1);
    b.return_(1, &[one]);
    b.block(2, &[]);
    let two = b.iconst(2, I32, 2);
    b.return_(2, &[two]);
    b.finish()
}

/// Returns `1` if the argument is zero, else `otherwise`.
fn brz_function(otherwise: i64) -> SourceFunction {
    let mut b = Builder::new(&[I32], &[I32]);
    let arg = b.block(0, &[I32])[0];
    b.brz(0, arg, 1, &[]);
    b.jump(0, 2, &[]);
    b.block(1, &[]);
    let one = b.iconst(1, I32, 1);
    b.return_(1, &[one]);
    b.block(2, &[]);
    let other = b.iconst(2, I32, otherwise);
    b.return_(2, &[other]);
    b.finish()
}

/// Falls through from the entry block into the block that returns the
/// argument.
fn fallthrough_function() -> SourceFunction {
    let mut b = Builder::new(&[I32], &[I32]);
    let arg = b.block(0, &[I32])[0];
    b.jump(0, 1, &[]);
    b.block(1, &[]);
    b.return_(1, &[arg]);
    b.finish()
}

/// Returns the first argument if the two are equal, else the second.
fn cond_br_function() -> SourceFunction {
    let mut b = Builder::new(&[I32, I32], &[I32]);
    let args = b.block(0, &[I32, I32]);
    let equal = b.icmp(0, IntCC::Equal, args[0], args[1]);
    b.brnz(0, equal, 1, &[]);
    b.jump(0, 2, &[]);
    b.block(1, &[]);
    b.return_(1, &[args[0]]);
    b.block(2, &[]);
    b.return_(2, &[args[1]]);
    b.finish()
}

#[test]
/// Test that a function which returns only a simple constant can be compiled.
fn tests_simple_const() {
    run_test(&[], &const_function(), |res: i32| -> bool { res == 42 });
}

#[test]
fn tests_test_simple_binop() {
    run_test(&[], &binop_function(), |res: i32| -> bool { res == 3000 });
}

#[test]
/// Test some basic usage of the relooper algorithm.
fn tests_test_simple_control_flow() {
    run_test(&[], &control_flow_function(), |res: i32| -> bool { res == 0 });
}

#[test]
fn tests_test_branching_from_file() {
    run_test(&[0, 13], &branching_function(), |out: i32| out == 0)
}

#[test]
fn tests_test_basic_exprs() {
    run_test(&[], &expr_function(), |out: i32| out == 12);
}

#[test]
fn tests_test_basic_loop() {
    run_test(&[13], &loop_function(), |res: i32| -> bool { res == 0 })
}

#[test]
fn tests_test_iadd_i32() {
    run_test(&[12, 13], &iadd_function(), |res: i32| -> bool { res == 12 + 13 });
}

#[test]
fn tests_test_isub_i32() {
    run_test(&[13, 13], &isub_function(), |res: i32| -> bool { res == 13 - 13 });

    run_test(&[15, 13], &isub_function(), |res: i32| -> bool { res == 15 - 13 });

    run_test(&[i32::MAX, i32::MAX - i32::MAX / 2], &isub_function(), |res: i32| -> bool {
        res == i32::MAX - (i32::MAX - i32::MAX / 2)
    });
}

#[test]
fn tests_test_i32_eq() {
    run_test(&[12, 12], &eq_function(), |res: i32| -> bool { res == 1 });
    run_test(&[12, 13], &eq_function(), |res: i32| -> bool { res == 0 });
}

#[test]
fn tests_test_brnz() {
    run_test(&[1], &brnz_function(), |res: i32| -> bool { res == 1 });
    run_test(&[0], &brnz_function(), |res: i32| -> bool { res == 2 });
}

#[test]
fn tests_test_cond_br() {
    run_test(&[1, 1], &cond_br_function(), |res: i32| -> bool { res == 1 });
    run_test(&[1, 2], &cond_br_function(), |res: i32| -> bool { res == 2 });
}
