use std::collections::{HashMap, HashSet};

use relooper::BranchMode;

use wasm_backend::conversions::block::{build_edge, build_operands};
use wasm_backend::conversions::cond::wasm_of_cond;
use wasm_backend::conversions::sig::wasm_of_sig;
use wasm_backend::conversions::ty::wasm_of_cranelift;
use wasm_backend::error::ErrorClass;
use wasm_backend::ir::{
    AbiParam, BlockData, InstData, InstructionData, IntCC, Opcode, Signature, SourceFunction, Type,
    TypeKind, ValueData, ValueDef,
};

use wasm_backend::target::{
    label_word_of, low_word_of, BinaryOp, Instr, InstrSeqId, ModuleLocals, ValType,
};

use wasm_backend::{
    build_from_pos, build_wasm_block, build_wasm_inst, translate_value,
    BranchInstr, CanBranchTo, IndividualFunctionTranslator, Operand, OperandTable, TranslationError,
};

/// A shape as `relooper` hands it out, in the types of the library, with the
/// edges of each block in the order of their destinations.
fn shaped(raw: relooper::ShapedBlock<u32>) -> wasm_backend::shape::ShapedBlock {
    let boxed = |inner: Box<relooper::ShapedBlock<u32>>| Box::new(shaped(*inner));
    match raw {
        relooper::ShapedBlock::Simple(s) => {
            let mut branches: Vec<(u32, relooper::BranchMode)> = s.branches.into_iter().collect();
            branches.sort_by_key(|entry| entry.0);
            wasm_backend::shape::ShapedBlock::Simple(wasm_backend::shape::SimpleBlock {
                label: s.label,
                immediate: s.immediate.map(boxed),
                branches,
                next: s.next.map(boxed),
            })
        }
        relooper::ShapedBlock::Loop(l) => {
            wasm_backend::shape::ShapedBlock::Loop(wasm_backend::shape::LoopBlock {
                loop_id: l.loop_id,
                inner: boxed(l.inner),
                next: l.next.map(boxed),
            })
        }
        relooper::ShapedBlock::Multiple(m) => {
            wasm_backend::shape::ShapedBlock::Multiple(wasm_backend::shape::MultipleBlock {
                handled: m
                    .handled
                    .into_iter()
                    .map(|h| wasm_backend::shape::HandledBlock {
                        labels: h.labels,
                        inner: shaped(h.inner),
                        break_after: h.break_after,
                    })
                    .collect(),
            })
        }
    }
}

/// The shape of the control flow of a function, as `relooper` computes it
/// for the blocks that are reached.
fn shape_of(
    func: &wasm_backend::ir::SourceFunction,
) -> Result<wasm_backend::shape::ShapedBlock, wasm_backend::TranslationError> {
    let (graph, first) = wasm_backend::shaping_input(func)?;
    Ok(shaped(*relooper::reloop(graph, first)))
}

/// Translates a function with the shape that `relooper` computes for it.
fn translate_function(
    func: &wasm_backend::ir::SourceFunction,
) -> Result<wasm_backend::FunctionBody, wasm_backend::TranslationError> {
    let shape = shape_of(func)?;
    wasm_backend::translate_shape(func, &shape)
}


const I32: Type = Type { kind: TypeKind::Int, bits: 32 };
const I64: Type = Type { kind: TypeKind::Int, bits: 64 };
const I8: Type = Type { kind: TypeKind::Int, bits: 8 };
const B1: Type = Type { kind: TypeKind::Bool, bits: 1 };
const F32: Type = Type { kind: TypeKind::Float, bits: 32 };
const F64: Type = Type { kind: TypeKind::Float, bits: 64 };

/// Builds a source function block by block, as a front-end would.
struct Builder {
    func: SourceFunction,
}

impl Builder {
    fn new(params: &[Type], returns: &[Type]) -> Builder {
        let abi = |types: &[Type]| types.iter().map(|ty| AbiParam { value_type: *ty }).collect();
        Builder {
            func: SourceFunction {
                signature: Signature { params: abi(params), returns: abi(returns) },
                values: vec![],
                insts: vec![],
                layout: vec![],
            },
        }
    }

    fn block(&mut self, block: u32, params: &[Type]) -> Vec<u32> {
        let mut values = vec![];
        for (n, ty) in params.iter().enumerate() {
            values.push(self.func.values.len() as u32);
            self.func.values.push(ValueData { ty: *ty, def: ValueDef::Param(block, n) });
        }
        self.func.layout.push(BlockData { block, params: values.clone(), insts: vec![] });
        values
    }

    fn inst(&mut self, block: u32, data: InstructionData, result: Option<Type>) -> u32 {
        let inst = self.func.insts.len() as u32;
        let value = self.func.values.len() as u32;
        let mut results = vec![];
        if let Some(ty) = result {
            self.func.values.push(ValueData { ty, def: ValueDef::Result(inst, 0) });
            results.push(value);
        }
        self.func.insts.push(InstData { data, results });
        let at = self.func.layout.iter().position(|b| b.block == block).unwrap();
        self.func.layout[at].insts.push(inst);
        value
    }

    fn iconst(&mut self, block: u32, ty: Type, imm: i64) -> u32 {
        self.inst(block, InstructionData::UnaryImm { opcode: Opcode::Iconst, imm }, Some(ty))
    }

    fn binary(&mut self, block: u32, opcode: Opcode, left: u32, right: u32) -> u32 {
        let ty = self.func.values[left as usize].ty;
        self.inst(block, InstructionData::Binary { opcode, left, right }, Some(ty))
    }

    fn iadd(&mut self, block: u32, left: u32, right: u32) -> u32 {
        self.binary(block, Opcode::Iadd, left, right)
    }

    fn isub(&mut self, block: u32, left: u32, right: u32) -> u32 {
        self.binary(block, Opcode::Isub, left, right)
    }

    fn iadd_imm(&mut self, block: u32, arg: u32, imm: i64) -> u32 {
        let ty = self.func.values[arg as usize].ty;
        self.inst(block, InstructionData::BinaryImm64 { opcode: Opcode::IaddImm, arg, imm }, Some(ty))
    }

    fn icmp(&mut self, block: u32, cond: IntCC, left: u32, right: u32) -> u32 {
        let data = InstructionData::IntCompare { opcode: Opcode::Icmp, left, right, cond };
        self.inst(block, data, Some(B1))
    }

    fn icmp_imm(&mut self, block: u32, cond: IntCC, arg: u32, imm: i64) -> u32 {
        let data = InstructionData::IntCompareImm { opcode: Opcode::IcmpImm, arg, cond, imm };
        self.inst(block, data, Some(B1))
    }

    fn jump(&mut self, block: u32, destination: u32, args: &[u32]) -> u32 {
        let data = InstructionData::Jump { opcode: Opcode::Jump, args: args.to_vec(), destination };
        self.inst(block, data, None);
        (self.func.insts.len() - 1) as u32
    }

    fn branch(&mut self, block: u32, opcode: Opcode, cond: u32, destination: u32, args: &[u32]) {
        let mut all = vec![cond];
        all.extend_from_slice(args);
        self.inst(block, InstructionData::Branch { opcode, args: all, destination }, None);
    }

    fn brz(&mut self, block: u32, cond: u32, destination: u32, args: &[u32]) {
        self.branch(block, Opcode::Brz, cond, destination, args)
    }

    fn brnz(&mut self, block: u32, cond: u32, destination: u32, args: &[u32]) {
        self.branch(block, Opcode::Brnz, cond, destination, args)
    }

    fn return_(&mut self, block: u32, args: &[u32]) {
        let data = InstructionData::MultiAry { opcode: Opcode::Return, args: args.to_vec() };
        self.inst(block, data, None);
    }

    fn finish(self) -> SourceFunction {
        self.func
    }
}

/// The tables of a translation, the instructions that a step appended, and
/// its result.
struct Lowered {
    result: Result<(), TranslationError>,
    code: Vec<Instr>,
    locals: Vec<ValType>,
    value_locals: HashMap<u32, usize>,
}

/// Runs a lowering step on a function from its initial tables.
fn lower(
    func: &SourceFunction,
    step: impl FnOnce(&mut IndividualFunctionTranslator<'_>, &mut Vec<Instr>) -> Result<(), TranslationError>,
) -> Lowered {
    let mut module_locals = ModuleLocals::new();
    let table = OperandTable::fill(func, &mut module_locals).unwrap();
    let mut t = IndividualFunctionTranslator::new(module_locals, func, &table);
    let mut code = vec![];
    let result = step(&mut t, &mut code);
    Lowered { result, code, locals: t.module_locals.types, value_locals: t.locals }
}

fn no_edges() -> Vec<(u32, BranchMode)> {
    vec![]
}

fn count(code: &[Instr], wanted: Instr) -> usize {
    code.iter().filter(|instr| **instr == wanted).count()
}

// The type map.

#[test]
fn type_map_integers_and_floats() {
    assert_eq!(wasm_of_cranelift(I32), Ok(ValType::I32));
    assert_eq!(wasm_of_cranelift(I64), Ok(ValType::I64));
    assert_eq!(wasm_of_cranelift(F32), Ok(ValType::F32));
    assert_eq!(wasm_of_cranelift(F64), Ok(ValType::F64));
}

#[test]
fn type_map_booleans_are_integers_of_their_width() {
    assert_eq!(wasm_of_cranelift(Type::boolean(32)), Ok(ValType::I32));
    assert_eq!(wasm_of_cranelift(Type::boolean(64)), Ok(ValType::I64));
}

#[test]
fn type_map_rejects_other_types() {
    assert_eq!(wasm_of_cranelift(I8), Err(TranslationError::UnsupportedType(I8)));
    assert_eq!(wasm_of_cranelift(B1), Err(TranslationError::UnsupportedType(B1)));
    let vector = Type { kind: TypeKind::Other, bits: 128 };
    assert_eq!(wasm_of_cranelift(vector), Err(TranslationError::UnsupportedType(vector)));
    assert_eq!(wasm_of_cranelift(Type::float(16)), Err(TranslationError::UnsupportedType(Type::float(16))));
    assert_eq!(Type::integer(32), I32);
}

#[test]
fn conditions_with_an_operator() {
    assert_eq!(wasm_of_cond(IntCC::Equal, true), Ok(BinaryOp::I32Eq));
    assert_eq!(wasm_of_cond(IntCC::Equal, false), Ok(BinaryOp::I64Eq));
    assert_eq!(wasm_of_cond(IntCC::NotEqual, true), Ok(BinaryOp::I32Ne));
    assert_eq!(wasm_of_cond(IntCC::NotEqual, false), Ok(BinaryOp::I64Ne));
    assert_eq!(wasm_of_cond(IntCC::UnsignedLessThanOrEqual, true), Ok(BinaryOp::I32LeU));
    assert_eq!(wasm_of_cond(IntCC::UnsignedLessThanOrEqual, false), Ok(BinaryOp::I64LeU));
}

#[test]
fn conditions_without_an_operator() {
    for cond in [
        IntCC::SignedLessThan,
        IntCC::SignedGreaterThanOrEqual,
        IntCC::SignedGreaterThan,
        IntCC::SignedLessThanOrEqual,
        IntCC::UnsignedLessThan,
        IntCC::UnsignedGreaterThanOrEqual,
        IntCC::UnsignedGreaterThan,
        IntCC::Overflow,
        IntCC::NotOverflow,
    ] {
        assert_eq!(wasm_of_cond(cond, true), Err(TranslationError::UnimplementedCondition(cond)));
        assert_eq!(wasm_of_cond(cond, false), Err(TranslationError::UnimplementedCondition(cond)));
    }
}

#[test]
fn signature_types_in_order() {
    let abi = |types: &[Type]| types.iter().map(|ty| AbiParam { value_type: *ty }).collect();
    let sig = Signature { params: abi(&[I32, I64, F32]), returns: abi(&[F64]) };
    assert_eq!(
        wasm_of_sig(&sig),
        Ok((vec![ValType::I32, ValType::I64, ValType::F32], vec![ValType::F64]))
    );
    let empty = Signature { params: vec![], returns: vec![] };
    assert_eq!(wasm_of_sig(&empty), Ok((vec![], vec![])));
}

#[test]
fn signature_reports_the_first_unsupported_type() {
    let abi = |types: &[Type]| types.iter().map(|ty| AbiParam { value_type: *ty }).collect();
    let sig = Signature { params: abi(&[I32, I8, B1]), returns: abi(&[B1]) };
    assert_eq!(wasm_of_sig(&sig), Err(TranslationError::UnsupportedType(I8)));
    let sig = Signature { params: abi(&[I32]), returns: abi(&[I64, B1]) };
    assert_eq!(wasm_of_sig(&sig), Err(TranslationError::UnsupportedType(B1)));
}

#[test]
fn words_are_truncated() {
    assert_eq!(low_word_of(42), 42);
    assert_eq!(low_word_of(-1), -1);
    assert_eq!(low_word_of(0x1_0000_002a), 42);
    assert_eq!(low_word_of(0xffff_ffff), -1);
    assert_eq!(low_word_of(0x8000_0000), i32::MIN);
    assert_eq!(label_word_of(7), 7);
    assert_eq!(label_word_of(u32::MAX), -1);
    assert_eq!(label_word_of(0x8000_0000), i32::MIN);
}

#[test]
fn errors_fall_into_three_classes() {
    assert_eq!(TranslationError::UnsupportedOnTarget(3).class(), ErrorClass::UnsupportedOnTarget);
    assert_eq!(TranslationError::UnimplementedOpcode(Opcode::Other(9)).class(), ErrorClass::Unimplemented);
    assert_eq!(TranslationError::UnimplementedCondition(IntCC::Overflow).class(), ErrorClass::Unimplemented);
    assert_eq!(TranslationError::UndispatchedBlock(4).class(), ErrorClass::IntegrityViolation);
    assert_eq!(TranslationError::UnsupportedType(I8).class(), ErrorClass::Unimplemented);
    assert_eq!(TranslationError::UnknownValue(1).class(), ErrorClass::IntegrityViolation);
    assert_eq!(TranslationError::MissingLocal(1).class(), ErrorClass::IntegrityViolation);
    assert_eq!(TranslationError::MissingDispatchLocal.class(), ErrorClass::IntegrityViolation);
}

#[test]
fn locals_are_numbered_in_order() {
    let mut locals = ModuleLocals::new();
    assert_eq!(locals.len(), 0);
    assert_eq!(locals.add(ValType::I64), 0);
    assert_eq!(locals.add(ValType::I32), 1);
    assert_eq!(locals.len(), 2);
    assert_eq!(locals.get(0), Some(ValType::I64));
    assert_eq!(locals.get(1), Some(ValType::I32));
    assert_eq!(locals.get(2), None);
}

// The operand classifier.

/// `v2 = v0 + v1; v3 = v2 + v2; v4 = 7; v5 = v3 + v4; v6 = v4 + v4; return v5`,
/// with `v0` and `v1` as the parameters of the only block.
fn sums() -> SourceFunction {
    let mut b = Builder::new(&[I32, I32], &[I32]);
    let args = b.block(0, &[I32, I32]);
    let v2 = b.iadd(0, args[0], args[1]);
    let v3 = b.iadd(0, v2, v2);
    let v4 = b.iconst(0, I32, 7);
    let v5 = b.iadd(0, v3, v4);
    let _v6 = b.iadd(0, v4, v4);
    b.return_(0, &[v5]);
    b.finish()
}

#[test]
fn fill_counts_uses_and_finds_constants() {
    let func = sums();
    let mut locals = ModuleLocals::new();
    let table = OperandTable::fill(&func, &mut locals).unwrap();
    let uses: HashMap<u32, usize> = [(2, 2), (3, 1), (5, 1)].into_iter().collect();
    assert_eq!(table.value_uses, uses);
    let constants: HashSet<u32> = [4].into_iter().collect();
    assert_eq!(table.rematerialize, constants);
    let params: HashMap<u32, Vec<(u32, usize)>> = [(0, vec![(0, 0), (1, 1)])].into_iter().collect();
    assert_eq!(table.block_params, params);
    assert_eq!(locals.types, vec![ValType::I32, ValType::I32]);
}

#[test]
fn fill_gives_every_parameter_of_every_block_a_local() {
    let mut b = Builder::new(&[I64], &[I32]);
    let arg = b.block(0, &[I64])[0];
    let seven = b.iconst(0, I32, 7);
    b.jump(0, 1, &[seven, arg]);
    let params = b.block(1, &[I32, I64]);
    b.return_(1, &[params[0]]);
    let func = b.finish();
    let mut locals = ModuleLocals::new();
    locals.add(ValType::F32);
    let table = OperandTable::fill(&func, &mut locals).unwrap();
    let expected: HashMap<u32, Vec<(u32, usize)>> =
        [(0, vec![(0, 1)]), (1, vec![(2, 2), (3, 3)])].into_iter().collect();
    assert_eq!(table.block_params, expected);
    assert_eq!(locals.types, vec![ValType::F32, ValType::I64, ValType::I32, ValType::I64]);
    assert!(table.value_uses.is_empty());
}

#[test]
fn fill_fails_without_a_trace() {
    let mut b = Builder::new(&[], &[]);
    b.block(0, &[I32, I8]);
    let func = b.finish();
    let mut locals = ModuleLocals::new();
    locals.add(ValType::I64);
    assert_eq!(OperandTable::fill(&func, &mut locals).err(), Some(TranslationError::UnsupportedType(I8)));
    assert_eq!(locals.types, vec![ValType::I64]);

    let mut b = Builder::new(&[], &[]);
    b.block(0, &[I32]);
    b.return_(0, &[9]);
    let func = b.finish();
    let mut locals = ModuleLocals::new();
    assert_eq!(OperandTable::fill(&func, &mut locals).err(), Some(TranslationError::UnknownValue(9)));
    assert!(locals.types.is_empty());

    let mut b = Builder::new(&[], &[]);
    b.block(0, &[]);
    b.func.layout[0].insts.push(5);
    let func = b.finish();
    let mut locals = ModuleLocals::new();
    assert_eq!(OperandTable::fill(&func, &mut locals).err(), Some(TranslationError::UnknownInst(5)));

    let mut b = Builder::new(&[], &[]);
    b.block(0, &[]);
    b.func.values.push(ValueData { ty: I32, def: ValueDef::Result(8, 0) });
    b.return_(0, &[0]);
    let func = b.finish();
    let mut locals = ModuleLocals::new();
    assert_eq!(OperandTable::fill(&func, &mut locals).err(), Some(TranslationError::UnknownInst(8)));
}

#[test]
fn operands_are_classified_by_their_uses() {
    let func = sums();
    let mut locals = ModuleLocals::new();
    let table = OperandTable::fill(&func, &mut locals).unwrap();
    assert_eq!(Operand::try_from_table(2, &table), Some(Operand::NormalUse(2)));
    assert_eq!(Operand::try_from_table(3, &table), Some(Operand::SingleUse(3)));
    assert_eq!(Operand::try_from_table(4, &table), Some(Operand::Rematerialise(4)));
    assert_eq!(Operand::try_from_table(6, &table), Some(Operand::SingleUse(6)));
    assert_eq!(Operand::try_from_table(0, &table), Some(Operand::SingleUse(0)));
    assert_eq!(Operand::from_table(6, &table), Operand::SingleUse(6));
    assert_eq!(Operand::from_table(2, &table), Operand::NormalUse(2));
    assert_eq!(Operand::from_table(5, &table), Operand::SingleUse(5));
}

#[test]
fn a_table_by_hand_is_classified_too() {
    let table = OperandTable {
        value_uses: [(1, 0), (2, 1), (3, 2), (4, 9)].into_iter().collect(),
        rematerialize: [4, 5].into_iter().collect(),
        block_params: HashMap::new(),
    };
    assert_eq!(Operand::try_from_table(1, &table), Some(Operand::SingleUse(1)));
    assert_eq!(Operand::try_from_table(2, &table), Some(Operand::SingleUse(2)));
    assert_eq!(Operand::try_from_table(3, &table), Some(Operand::NormalUse(3)));
    assert_eq!(Operand::try_from_table(4, &table), Some(Operand::Rematerialise(4)));
    assert_eq!(Operand::try_from_table(5, &table), Some(Operand::Rematerialise(5)));
    assert_eq!(Operand::try_from_table(6, &table), Some(Operand::SingleUse(6)));
}

// The value emitter and the instruction lowerer.

#[test]
fn a_parameter_is_read_from_its_local() {
    let func = sums();
    let edges = no_edges();
    let cbt = CanBranchTo { from_relooper: &edges, locally_computed: vec![] };
    let out = lower(&func, |t, code| translate_value(1, t, code, &cbt, 10));
    assert_eq!(out.result, Ok(()));
    assert_eq!(out.code, vec![Instr::LocalGet(1)]);
    assert_eq!(out.locals.len(), 2);
    assert!(out.value_locals.is_empty());
}

#[test]
fn a_value_with_one_use_is_computed_in_place() {
    let func = sums();
    let edges = no_edges();
    let cbt = CanBranchTo { from_relooper: &edges, locally_computed: vec![] };
    let out = lower(&func, |t, code| translate_value(5, t, code, &cbt, 10));
    assert_eq!(out.result, Ok(()));
    assert_eq!(
        out.code,
        vec![
            Instr::LocalGet(0),
            Instr::LocalGet(1),
            Instr::Binop(BinaryOp::I32Add),
            Instr::LocalSet(2),
            Instr::LocalGet(2),
            Instr::LocalGet(2),
            Instr::Binop(BinaryOp::I32Add),
            Instr::I32Const(7),
            Instr::Binop(BinaryOp::I32Add),
        ]
    );
    assert_eq!(out.locals, vec![ValType::I32, ValType::I32, ValType::I32]);
    let bound: HashMap<u32, usize> = [(2, 2)].into_iter().collect();
    assert_eq!(out.value_locals, bound);
}

#[test]
fn a_value_with_several_uses_is_written_once() {
    let func = sums();
    let edges = no_edges();
    let cbt = CanBranchTo { from_relooper: &edges, locally_computed: vec![] };
    let out = lower(&func, |t, code| {
        translate_value(2, t, code, &cbt, 10)?;
        translate_value(2, t, code, &cbt, 10)?;
        translate_value(2, t, code, &cbt, 10)
    });
    assert_eq!(out.result, Ok(()));
    assert_eq!(
        out.code,
        vec![
            Instr::LocalGet(0),
            Instr::LocalGet(1),
            Instr::Binop(BinaryOp::I32Add),
            Instr::LocalSet(2),
            Instr::LocalGet(2),
            Instr::LocalGet(2),
            Instr::LocalGet(2),
        ]
    );
    assert_eq!(count(&out.code, Instr::LocalSet(2)), 1);
    assert_eq!(count(&out.code, Instr::LocalGet(2)), 3);
    assert_eq!(out.locals[2], ValType::I32);
}

#[test]
fn a_constant_is_emitted_at_every_use() {
    let func = sums();
    let edges = no_edges();
    let cbt = CanBranchTo { from_relooper: &edges, locally_computed: vec![] };
    let out = lower(&func, |t, code| {
        translate_value(4, t, code, &cbt, 10)?;
        translate_value(4, t, code, &cbt, 10)?;
        build_wasm_inst(4, t, code, &cbt, 10)
    });
    assert_eq!(out.result, Ok(()));
    assert_eq!(
        out.code,
        vec![
            Instr::I32Const(7),
            Instr::I32Const(7),
            Instr::I32Const(7),
            Instr::I32Const(7),
            Instr::Binop(BinaryOp::I32Add),
        ]
    );
    assert_eq!(out.locals.len(), 2);
    assert!(out.value_locals.is_empty());
}

/// One block with a use of each instruction that has a lowering, at 64 bits
/// where `wide`.
fn every_instruction(wide: bool) -> (SourceFunction, Vec<u32>) {
    let ty = if wide { I64 } else { I32 };
    let mut b = Builder::new(&[ty], &[]);
    let arg = b.block(0, &[ty])[0];
    let constant = b.iconst(0, ty, 0x1_0000_0005);
    let sum = b.iadd(0, arg, constant);
    let difference = b.isub(0, arg, constant);
    let more = b.iadd_imm(0, arg, -3);
    let equal = b.icmp(0, IntCC::Equal, arg, constant);
    let unequal = b.icmp(0, IntCC::NotEqual, arg, constant);
    let equal_imm = b.icmp_imm(0, IntCC::Equal, arg, 9);
    let unequal_imm = b.icmp_imm(0, IntCC::NotEqual, arg, 9);
    let below_imm = b.icmp_imm(0, IntCC::UnsignedLessThanOrEqual, arg, 9);
    let values = vec![constant, sum, difference, more, equal, unequal, equal_imm, unequal_imm, below_imm];
    b.return_(0, &values);
    (b.finish(), values)
}

#[test]
fn instructions_at_32_bits() {
    let (func, values) = every_instruction(false);
    let edges = no_edges();
    let cbt = CanBranchTo { from_relooper: &edges, locally_computed: vec![] };
    let expected = vec![
        vec![Instr::I32Const(5)],
        vec![Instr::LocalGet(0), Instr::I32Const(5), Instr::Binop(BinaryOp::I32Add)],
        vec![Instr::LocalGet(0), Instr::I32Const(5), Instr::Binop(BinaryOp::I32Sub)],
        vec![Instr::LocalGet(0), Instr::I32Const(-3), Instr::Binop(BinaryOp::I32Add)],
        vec![Instr::LocalGet(0), Instr::I32Const(5), Instr::Binop(BinaryOp::I32Eq)],
        vec![Instr::LocalGet(0), Instr::I32Const(5), Instr::Binop(BinaryOp::I32Ne)],
        vec![Instr::LocalGet(0), Instr::I32Const(9), Instr::Binop(BinaryOp::I32Eq)],
        vec![Instr::LocalGet(0), Instr::I32Const(9), Instr::Binop(BinaryOp::I32Ne)],
        vec![Instr::LocalGet(0), Instr::I32Const(9), Instr::Binop(BinaryOp::I32LeU)],
    ];
    for (value, code) in values.iter().zip(expected) {
        let inst = match func.values[*value as usize].def {
            ValueDef::Result(inst, _) => inst,
            ValueDef::Param(..) => unreachable!(),
        };
        let out = lower(&func, |t, c| build_wasm_inst(inst, t, c, &cbt, 10));
        assert_eq!(out.result, Ok(()));
        assert_eq!(out.code, code);
    }
}

#[test]
fn instructions_at_64_bits() {
    let (func, values) = every_instruction(true);
    let edges = no_edges();
    let cbt = CanBranchTo { from_relooper: &edges, locally_computed: vec![] };
    let expected = vec![
        vec![Instr::I64Const(0x1_0000_0005)],
        vec![Instr::LocalGet(0), Instr::I64Const(0x1_0000_0005), Instr::Binop(BinaryOp::I64Add)],
        vec![Instr::LocalGet(0), Instr::I64Const(0x1_0000_0005), Instr::Binop(BinaryOp::I64Sub)],
        vec![Instr::LocalGet(0), Instr::I64Const(-3), Instr::Binop(BinaryOp::I64Add)],
        vec![Instr::LocalGet(0), Instr::I64Const(0x1_0000_0005), Instr::Binop(BinaryOp::I64Eq)],
        vec![Instr::LocalGet(0), Instr::I64Const(0x1_0000_0005), Instr::Binop(BinaryOp::I64Ne)],
        vec![Instr::LocalGet(0), Instr::I64Const(9), Instr::Binop(BinaryOp::I64Eq)],
        vec![Instr::LocalGet(0), Instr::I64Const(9), Instr::Binop(BinaryOp::I64Ne)],
        vec![Instr::LocalGet(0), Instr::I64Const(9), Instr::Binop(BinaryOp::I64LeU)],
    ];
    for (value, code) in values.iter().zip(expected) {
        let inst = match func.values[*value as usize].def {
            ValueDef::Result(inst, _) => inst,
            ValueDef::Param(..) => unreachable!(),
        };
        let out = lower(&func, |t, c| build_wasm_inst(inst, t, c, &cbt, 10));
        assert_eq!(out.result, Ok(()));
        assert_eq!(out.code, code);
    }
}

/// One block that returns the result of one instruction of the given format
/// on the parameter of the block.
fn one_instruction(ty: Type, data: impl FnOnce(u32) -> InstructionData, result: Option<Type>) -> SourceFunction {
    let mut b = Builder::new(&[], &[]);
    let arg = b.block(0, &[ty])[0];
    let value = b.inst(0, data(arg), result);
    if result.is_some() {
        b.return_(0, &[value]);
    }
    b.finish()
}

fn lower_inst(func: &SourceFunction, inst: u32, fuel: usize) -> Lowered {
    let edges = no_edges();
    let cbt = CanBranchTo { from_relooper: &edges, locally_computed: vec![] };
    lower(func, |t, c| build_wasm_inst(inst, t, c, &cbt, fuel))
}

#[test]
fn atomics_are_unsupported() {
    let cas = one_instruction(
        I32,
        |arg| InstructionData::AtomicCas { opcode: Opcode::Other(1), args: vec![arg, arg, arg] },
        Some(I32),
    );
    assert_eq!(lower_inst(&cas, 0, 10).result, Err(TranslationError::UnsupportedOnTarget(0)));
    let rmw = one_instruction(
        I32,
        |arg| InstructionData::AtomicRmw { opcode: Opcode::Other(2), args: vec![arg, arg] },
        Some(I32),
    );
    let out = lower_inst(&rmw, 0, 10);
    assert_eq!(out.result, Err(TranslationError::UnsupportedOnTarget(0)));
    assert!(out.code.is_empty());
    assert_eq!(translate_function(&rmw), Err(TranslationError::UnsupportedOnTarget(0)));
}

#[test]
fn other_operations_are_unimplemented() {
    let imul = Opcode::Other(77);
    let func = one_instruction(I32, |arg| InstructionData::Binary { opcode: imul, left: arg, right: arg }, Some(I32));
    let out = lower_inst(&func, 0, 10);
    assert_eq!(out.result, Err(TranslationError::UnimplementedOpcode(imul)));
    assert_eq!(out.code, vec![Instr::LocalGet(0), Instr::LocalGet(0)]);

    let func = one_instruction(I32, |arg| InstructionData::Unary { opcode: imul, arg }, Some(I32));
    assert_eq!(lower_inst(&func, 0, 10).result, Err(TranslationError::UnimplementedOpcode(imul)));
    let func = one_instruction(I32, |arg| InstructionData::Other { opcode: imul, args: vec![arg] }, Some(I32));
    assert_eq!(lower_inst(&func, 0, 10).result, Err(TranslationError::UnimplementedOpcode(imul)));
    let func = one_instruction(I32, |_| InstructionData::UnaryImm { opcode: imul, imm: 1 }, Some(I32));
    assert_eq!(lower_inst(&func, 0, 10).result, Err(TranslationError::UnimplementedOpcode(imul)));
    let func = one_instruction(I32, |arg| InstructionData::BinaryImm64 { opcode: imul, arg, imm: 1 }, Some(I32));
    assert_eq!(lower_inst(&func, 0, 10).result, Err(TranslationError::UnimplementedOpcode(imul)));
    let func = one_instruction(
        I32,
        |arg| InstructionData::IntCompare { opcode: imul, left: arg, right: arg, cond: IntCC::Equal },
        Some(B1),
    );
    assert_eq!(lower_inst(&func, 0, 10).result, Err(TranslationError::UnimplementedOpcode(imul)));
    let func = one_instruction(
        I32,
        |arg| InstructionData::IntCompareImm { opcode: imul, arg, cond: IntCC::Equal, imm: 0 },
        Some(B1),
    );
    assert_eq!(lower_inst(&func, 0, 10).result, Err(TranslationError::UnimplementedOpcode(imul)));
}

#[test]
fn other_conditions_are_unimplemented() {
    let func = one_instruction(
        I32,
        |arg| InstructionData::IntCompare {
            opcode: Opcode::Icmp,
            left: arg,
            right: arg,
            cond: IntCC::UnsignedLessThanOrEqual,
        },
        Some(B1),
    );
    assert_eq!(
        lower_inst(&func, 0, 10).result,
        Err(TranslationError::UnimplementedCondition(IntCC::UnsignedLessThanOrEqual))
    );
    let func = one_instruction(
        I64,
        |arg| InstructionData::IntCompareImm {
            opcode: Opcode::IcmpImm,
            arg,
            cond: IntCC::SignedLessThan,
            imm: 0,
        },
        Some(B1),
    );
    let out = lower_inst(&func, 0, 10);
    assert_eq!(out.result, Err(TranslationError::UnimplementedCondition(IntCC::SignedLessThan)));
    assert_eq!(out.code, vec![Instr::LocalGet(0), Instr::I64Const(0)]);
}

#[test]
fn narrow_integers_are_unsupported() {
    let mut b = Builder::new(&[], &[]);
    b.block(0, &[]);
    let small = b.iconst(0, I8, 1);
    let sum = b.iadd(0, small, small);
    b.return_(0, &[sum]);
    let func = b.finish();
    assert_eq!(lower_inst(&func, 0, 10).result, Err(TranslationError::UnsupportedType(I8)));
    assert_eq!(translate_function(&func), Err(TranslationError::UnsupportedType(I8)));
}

#[test]
fn a_constant_needs_a_result() {
    let func = one_instruction(I32, |_| InstructionData::UnaryImm { opcode: Opcode::Iconst, imm: 1 }, None);
    assert_eq!(lower_inst(&func, 0, 10).result, Err(TranslationError::MissingResult(0)));
    assert_eq!(translate_function(&func), Err(TranslationError::MissingResult(0)));
}

#[test]
fn terminators_define_no_value() {
    let mut b = Builder::new(&[], &[]);
    b.block(0, &[]);
    b.return_(0, &[]);
    b.func.values.push(ValueData { ty: I32, def: ValueDef::Result(0, 0) });
    let func = b.finish();
    assert_eq!(lower_inst(&func, 0, 10).result, Err(TranslationError::MisplacedTerminator(0)));
}

#[test]
fn unknown_instructions_and_values() {
    let func = sums();
    assert_eq!(lower_inst(&func, 99, 10).result, Err(TranslationError::UnknownInst(99)));
    let edges = no_edges();
    let cbt = CanBranchTo { from_relooper: &edges, locally_computed: vec![] };
    let out = lower(&func, |t, c| translate_value(99, t, c, &cbt, 10));
    assert_eq!(out.result, Err(TranslationError::UnknownValue(99)));
    let out = lower(&func, |t, c| translate_value(6, t, c, &cbt, 10));
    assert_eq!(out.result, Ok(()));
    assert_eq!(
        out.code,
        vec![Instr::I32Const(7), Instr::I32Const(7), Instr::Binop(BinaryOp::I32Add)]
    );
}

#[test]
fn a_parameter_without_a_local() {
    let mut func = sums();
    func.values.push(ValueData { ty: I32, def: ValueDef::Param(5, 0) });
    let edges = no_edges();
    let cbt = CanBranchTo { from_relooper: &edges, locally_computed: vec![] };
    let out = lower(&func, |t, c| translate_value(7, t, c, &cbt, 10));
    assert_eq!(out.result, Err(TranslationError::MissingLocal(7)));
    func.values.push(ValueData { ty: I32, def: ValueDef::Param(0, 2) });
    let out = lower(&func, |t, c| translate_value(8, t, c, &cbt, 10));
    assert_eq!(out.result, Err(TranslationError::MissingLocal(8)));
}

#[test]
fn definitions_that_nest_too_deep() {
    let func = sums();
    assert_eq!(lower_inst(&func, 0, 0).result, Err(TranslationError::DefinitionCycle(0)));
    assert_eq!(lower_inst(&func, 0, 1).result, Ok(()));
    // `v5 = v3 + v4` needs `v3 = v2 + v2`, which needs `v2 = v0 + v1`.
    assert_eq!(lower_inst(&func, 3, 2).result, Err(TranslationError::DefinitionCycle(0)));
    assert_eq!(lower_inst(&func, 3, 3).result, Ok(()));

    // `v0 = v1 + v1; v1 = v0 + v0`.
    let mut b = Builder::new(&[], &[I32]);
    b.block(0, &[]);
    b.inst(0, InstructionData::Binary { opcode: Opcode::Iadd, left: 1, right: 1 }, Some(I32));
    b.inst(0, InstructionData::Binary { opcode: Opcode::Iadd, left: 0, right: 0 }, Some(I32));
    b.return_(0, &[0]);
    let func = b.finish();
    assert!(matches!(translate_function(&func), Err(TranslationError::DefinitionCycle(_))));
}

// The block lowerer.

#[test]
fn operands_are_pushed_in_order() {
    let func = sums();
    let edges = no_edges();
    let cbt = CanBranchTo { from_relooper: &edges, locally_computed: vec![] };
    let out = lower(&func, |t, c| build_operands(&vec![1, 4, 0], t, c, &cbt, 10));
    assert_eq!(out.result, Ok(()));
    assert_eq!(out.code, vec![Instr::LocalGet(1), Instr::I32Const(7), Instr::LocalGet(0)]);
    let out = lower(&func, |t, c| build_operands(&vec![1, 99, 0], t, c, &cbt, 10));
    assert_eq!(out.result, Err(TranslationError::UnknownValue(99)));
    assert_eq!(out.code, vec![Instr::LocalGet(1)]);
}

/// `block0(v0): v1 = 5; jump block1(v1, v0)` and `block1(v2, v3): return v2`.
fn handover() -> SourceFunction {
    let mut b = Builder::new(&[I64], &[I32]);
    let arg = b.block(0, &[I64])[0];
    let five = b.iconst(0, I32, 5);
    b.jump(0, 1, &[five, arg]);
    let params = b.block(1, &[I32, I64]);
    b.return_(1, &[params[0]]);
    b.finish()
}

#[test]
fn an_edge_writes_the_parameters_in_order() {
    let func = handover();
    let edges = no_edges();
    let cbt = CanBranchTo { from_relooper: &edges, locally_computed: vec![] };
    let out = lower(&func, |t, c| build_edge(1, &vec![1, 0], 0, 1, t, c, &cbt, 10));
    assert_eq!(out.result, Ok(()));
    assert_eq!(
        out.code,
        vec![Instr::I32Const(5), Instr::LocalSet(1), Instr::LocalGet(0), Instr::LocalSet(2)]
    );
    // The condition of a branch is no argument of its edge.
    let out = lower(&func, |t, c| build_edge(1, &vec![0, 1, 0], 1, 1, t, c, &cbt, 10));
    assert_eq!(out.result, Ok(()));
    assert_eq!(
        out.code,
        vec![Instr::I32Const(5), Instr::LocalSet(1), Instr::LocalGet(0), Instr::LocalSet(2)]
    );
}

#[test]
fn an_edge_to_parameters_needs_all_arguments() {
    let func = handover();
    let edges = no_edges();
    let cbt = CanBranchTo { from_relooper: &edges, locally_computed: vec![] };
    let out = lower(&func, |t, c| build_edge(1, &vec![1], 0, 1, t, c, &cbt, 10));
    assert_eq!(out.result, Err(TranslationError::ArityMismatch(1)));
    assert!(out.code.is_empty());
    let out = lower(&func, |t, c| build_edge(1, &vec![1, 0], 0, 7, t, c, &cbt, 10));
    assert_eq!(out.result, Ok(()));
    assert!(out.code.is_empty());
}

#[test]
fn a_block_ends_with_its_jump() {
    let func = handover();
    let edges = no_edges();
    let cbt = CanBranchTo { from_relooper: &edges, locally_computed: vec![] };
    let out = lower(&func, |t, c| build_wasm_block(0, t, c, &cbt));
    assert_eq!(out.result, Ok(()));
    assert_eq!(
        out.code,
        vec![Instr::I32Const(5), Instr::LocalSet(1), Instr::LocalGet(0), Instr::LocalSet(2)]
    );
    let out = lower(&func, |t, c| build_wasm_block(1, t, c, &cbt));
    assert_eq!(out.code, vec![Instr::LocalGet(1), Instr::Return]);
    let out = lower(&func, |t, c| build_wasm_block(2, t, c, &cbt));
    assert_eq!(out.result, Err(TranslationError::UnknownBlock(2)));
}

#[test]
fn nothing_is_emitted_after_a_jump_or_a_return() {
    let mut b = Builder::new(&[], &[I32]);
    b.block(0, &[]);
    let one = b.iconst(0, I32, 1);
    b.return_(0, &[one]);
    let two = b.iconst(0, I32, 2);
    b.return_(0, &[two]);
    let func = b.finish();
    let edges = no_edges();
    let cbt = CanBranchTo { from_relooper: &edges, locally_computed: vec![] };
    let out = lower(&func, |t, c| build_wasm_block(0, t, c, &cbt));
    assert_eq!(out.code, vec![Instr::I32Const(1), Instr::Return]);
    let insts = vec![0, 1, 2, 3];
    let out = lower(&func, |t, c| build_from_pos(t, c, &cbt, &insts, 2, 10));
    assert_eq!(out.code, vec![Instr::I32Const(2), Instr::Return]);
    let out = lower(&func, |t, c| build_from_pos(t, c, &cbt, &insts, 4, 10));
    assert_eq!(out.result, Ok(()));
    assert!(out.code.is_empty());
    let out = lower(&func, |t, c| build_from_pos(t, c, &cbt, &vec![0, 12], 0, 10));
    assert_eq!(out.result, Err(TranslationError::UnknownInst(12)));
}

#[test]
fn an_instruction_without_a_value_is_lowered_in_its_place() {
    let nop = Opcode::Other(3);
    let mut b = Builder::new(&[], &[]);
    b.block(0, &[]);
    b.inst(0, InstructionData::Other { opcode: nop, args: vec![] }, None);
    b.return_(0, &[]);
    let func = b.finish();
    assert_eq!(translate_function(&func), Err(TranslationError::UnimplementedOpcode(nop)));

    // One that computes a value which nothing uses is passed over.
    let mut b = Builder::new(&[], &[]);
    b.block(0, &[]);
    b.inst(0, InstructionData::Binary { opcode: nop, left: 0, right: 0 }, Some(I32));
    b.return_(0, &[]);
    let func = b.finish();
    let body = translate_function(&func).unwrap();
    assert_eq!(body.instrs, vec![Instr::Return, Instr::Unreachable]);
}

#[test]
fn only_returns_take_a_list_of_operands() {
    let call = Opcode::Other(40);
    let mut b = Builder::new(&[], &[]);
    b.block(0, &[]);
    b.inst(0, InstructionData::MultiAry { opcode: call, args: vec![] }, None);
    let func = b.finish();
    assert_eq!(translate_function(&func), Err(TranslationError::UnimplementedOpcode(call)));
}

/// `block0(v0): <opcode> v0, block1; jump block2`, with empty blocks 1 and 2.
fn fork(ty: Type, opcode: Opcode) -> SourceFunction {
    let mut b = Builder::new(&[], &[]);
    let arg = b.block(0, &[ty])[0];
    b.branch(0, opcode, arg, 1, &[]);
    b.jump(0, 2, &[]);
    b.block(1, &[]);
    b.return_(1, &[]);
    b.block(2, &[]);
    b.return_(2, &[]);
    b.finish()
}

fn lower_block(func: &SourceFunction, edges: Vec<(u32, BranchMode)>, dispatch: Vec<(u32, BranchInstr)>, loops: &[u16]) -> Lowered {
    let cbt = CanBranchTo { from_relooper: &edges, locally_computed: dispatch };
    lower(func, |t, c| {
        for id in loops {
            t.loop_to_block.insert(*id, InstrSeqId::Loop(*id));
        }
        build_wasm_block(0, t, c, &cbt)
    })
}

#[test]
fn conditions_are_compared_with_zero() {
    let out = lower_block(&fork(I32, Opcode::Brz), vec![], vec![], &[]);
    assert_eq!(out.result, Ok(()));
    assert_eq!(
        out.code,
        vec![
            Instr::LocalGet(0),
            Instr::I32Const(0),
            Instr::Binop(BinaryOp::I32Eq),
            Instr::If,
            Instr::Else,
            Instr::End,
        ]
    );
    let out = lower_block(&fork(I64, Opcode::Brnz), vec![], vec![], &[]);
    assert_eq!(
        out.code[..3],
        [Instr::LocalGet(0), Instr::I64Const(0), Instr::Binop(BinaryOp::I64Ne)]
    );
    // A narrow integer is compared at 32 bits.
    let mut b = Builder::new(&[], &[]);
    let arg = b.block(0, &[I32])[0];
    let data = InstructionData::BinaryImm64 { opcode: Opcode::IaddImm, arg, imm: 1 };
    let narrow = b.inst(0, data, Some(I8));
    b.brnz(0, narrow, 1, &[]);
    b.block(1, &[]);
    let out = lower_block(&b.finish(), vec![], vec![], &[]);
    assert_eq!(
        out.code[..5],
        [
            Instr::LocalGet(0),
            Instr::I32Const(1),
            Instr::Binop(BinaryOp::I32Add),
            Instr::I32Const(0),
            Instr::Binop(BinaryOp::I32Ne),
        ]
    );
    let out = lower_block(&fork(I64, Opcode::Brz), vec![], vec![], &[]);
    assert_eq!(
        out.code[..3],
        [Instr::LocalGet(0), Instr::I64Const(0), Instr::Binop(BinaryOp::I64Eq)]
    );
}

#[test]
fn boolean_conditions_are_taken_as_they_are() {
    let mut b = Builder::new(&[], &[]);
    let args = b.block(0, &[I32, I32]);
    let equal = b.icmp(0, IntCC::Equal, args[0], args[1]);
    b.brz(0, equal, 1, &[]);
    b.jump(0, 2, &[]);
    b.block(1, &[]);
    b.block(2, &[]);
    let func = b.finish();
    let out = lower_block(&func, vec![], vec![], &[]);
    assert_eq!(
        out.code,
        vec![
            Instr::LocalGet(0),
            Instr::LocalGet(1),
            Instr::Binop(BinaryOp::I32Eq),
            Instr::If,
            Instr::Else,
            Instr::End,
        ]
    );
}

#[test]
fn wide_conditions_are_unsupported() {
    let wide = Type { kind: TypeKind::Int, bits: 128 };
    let mut b = Builder::new(&[], &[]);
    b.block(0, &[]);
    b.func.values.push(ValueData { ty: wide, def: ValueDef::Param(0, 0) });
    b.func.layout[0].params.push(0);
    b.brz(0, 0, 1, &[]);
    b.block(1, &[]);
    let mut func = b.finish();
    // The parameter has no local, since its type has none.
    func.layout[0].params.clear();
    func.values[0].def = ValueDef::Result(1, 0);
    func.insts.push(InstData {
        data: InstructionData::UnaryImm { opcode: Opcode::Iconst, imm: 1 },
        results: vec![0],
    });
    let out = lower_block(&func, vec![], vec![], &[]);
    assert_eq!(out.result, Err(TranslationError::UnsupportedType(wide)));
}

#[test]
fn a_branch_needs_a_condition_and_a_known_opcode() {
    let mut b = Builder::new(&[], &[]);
    b.block(0, &[]);
    b.inst(0, InstructionData::Branch { opcode: Opcode::Brz, args: vec![], destination: 0 }, None);
    let func = b.finish();
    assert_eq!(lower_block(&func, vec![], vec![], &[]).result, Err(TranslationError::MissingCondition(0)));
    let other = Opcode::Other(8);
    let func = fork(I32, other);
    assert_eq!(lower_block(&func, vec![], vec![], &[]).result, Err(TranslationError::UnimplementedOpcode(other)));
}

#[test]
fn edges_into_the_selector_choose_an_arm() {
    let dispatch = vec![(1, BranchInstr::SetLocal(5)), (2, BranchInstr::SetLocal(5))];
    let out = lower_block(&fork(I32, Opcode::Brnz), vec![], dispatch, &[]);
    assert_eq!(out.result, Ok(()));
    assert_eq!(
        out.code,
        vec![
            Instr::LocalGet(0),
            Instr::I32Const(0),
            Instr::Binop(BinaryOp::I32Ne),
            Instr::If,
            Instr::I32Const(1),
            Instr::LocalSet(5),
            Instr::Else,
            Instr::I32Const(2),
            Instr::LocalSet(5),
            Instr::End,
        ]
    );
}

#[test]
fn the_selector_is_consulted_before_the_edge_kinds() {
    let dispatch = vec![(1, BranchInstr::SetLocal(5)), (2, BranchInstr::SetLocal(5))];
    let edges = vec![(1, BranchMode::LoopBreak(0)), (2, BranchMode::LoopContinue(0))];
    let out = lower_block(&fork(I32, Opcode::Brnz), edges, dispatch, &[0]);
    assert_eq!(count(&out.code, Instr::LocalSet(5)), 2);
    assert_eq!(count(&out.code, Instr::Br(InstrSeqId::Loop(0))), 0);
    assert_eq!(count(&out.code, Instr::BrIf(InstrSeqId::Exit(0))), 0);
}

#[test]
fn edges_that_fall_through_skip_the_selector() {
    let dispatch = vec![(2, BranchInstr::SetLocal(4))];
    let edges = vec![(1, BranchMode::MergedBranch)];
    let out = lower_block(&fork(I32, Opcode::Brz), edges, dispatch, &[]);
    assert_eq!(out.result, Ok(()));
    assert_eq!(
        out.code,
        vec![
            Instr::LocalGet(0),
            Instr::I32Const(0),
            Instr::Binop(BinaryOp::I32Eq),
            Instr::If,
            Instr::I32Const(i32::MAX),
            Instr::LocalSet(4),
            Instr::Else,
            Instr::I32Const(2),
            Instr::LocalSet(4),
            Instr::End,
        ]
    );
    // An unconditional edge that falls through emits nothing.
    let edges = vec![(2, BranchMode::MergedBranch)];
    let out = lower_block(&fork(I32, Opcode::Brz), edges, vec![], &[]);
    assert_eq!(out.code[3..], [Instr::If, Instr::Else, Instr::End]);
}

#[test]
fn edges_of_loops_branch() {
    let edges = vec![(1, BranchMode::LoopBreak(3)), (2, BranchMode::LoopContinue(3))];
    let out = lower_block(&fork(I32, Opcode::Brz), edges, vec![], &[3]);
    assert_eq!(out.result, Ok(()));
    assert_eq!(
        out.code,
        vec![
            Instr::LocalGet(0),
            Instr::I32Const(0),
            Instr::Binop(BinaryOp::I32Eq),
            Instr::BrIf(InstrSeqId::Exit(3)),
            Instr::Br(InstrSeqId::Loop(3)),
        ]
    );
    let edges = vec![(1, BranchMode::LoopContinue(3)), (2, BranchMode::LoopBreak(3))];
    let out = lower_block(&fork(I32, Opcode::Brz), edges, vec![], &[3]);
    assert_eq!(
        out.code[3..],
        [Instr::BrIf(InstrSeqId::Loop(3)), Instr::Br(InstrSeqId::Exit(3))]
    );
}

#[test]
fn edges_of_loops_need_the_loop() {
    for mode in [BranchMode::LoopBreak(3), BranchMode::LoopContinue(3)] {
        let out = lower_block(&fork(I32, Opcode::Brz), vec![(1, mode)], vec![], &[2]);
        assert_eq!(out.result, Err(TranslationError::MissingLoop(3)));
        let out = lower_block(&fork(I32, Opcode::Brz), vec![(2, mode)], vec![], &[]);
        assert_eq!(out.result, Err(TranslationError::MissingLoop(3)));
    }
}

#[test]
fn edges_into_a_selector_need_a_dispatch_local() {
    for mode in [
        BranchMode::LoopBreakIntoMulti(0),
        BranchMode::LoopContinueIntoMulti(0),
        BranchMode::MergedBranchIntoMulti,
        BranchMode::SetLabelAndBreak,
    ] {
        let out = lower_block(&fork(I32, Opcode::Brz), vec![(1, mode)], vec![], &[0]);
        assert_eq!(out.result, Err(TranslationError::UndispatchedBlock(1)));
        let out = lower_block(&fork(I32, Opcode::Brz), vec![(2, mode)], vec![], &[0]);
        assert_eq!(out.result, Err(TranslationError::UndispatchedBlock(2)));
        let other = vec![(7, BranchInstr::SetLocal(4))];
        let out = lower_block(&fork(I32, Opcode::Brz), vec![(2, mode)], other, &[0]);
        assert_eq!(out.result, Err(TranslationError::UndispatchedBlock(2)));
    }
}

#[test]
fn edges_into_a_selector_write_the_destination_and_branch_out() {
    let dispatch = || vec![(1, BranchInstr::SetLocal(4)), (2, BranchInstr::SetLocal(4))];
    let head = vec![Instr::LocalGet(0), Instr::I32Const(0), Instr::Binop(BinaryOp::I32Eq), Instr::If];
    let case = |taken: BranchMode, other: BranchMode| {
        lower_block(&fork(I32, Opcode::Brz), vec![(1, taken), (2, other)], dispatch(), &[3])
    };

    let out = case(BranchMode::LoopBreakIntoMulti(3), BranchMode::LoopContinueIntoMulti(3));
    assert_eq!(out.result, Ok(()));
    assert_eq!(out.code[..4], head[..]);
    assert_eq!(
        out.code[4..],
        [
            Instr::I32Const(1),
            Instr::LocalSet(4),
            Instr::Br(InstrSeqId::Exit(3)),
            Instr::Else,
            Instr::I32Const(2),
            Instr::LocalSet(4),
            Instr::Br(InstrSeqId::Loop(3)),
            Instr::End,
        ]
    );

    let out = case(BranchMode::SetLabelAndBreak, BranchMode::MergedBranchIntoMulti);
    assert_eq!(out.result, Ok(()));
    assert_eq!(
        out.code[4..],
        [
            Instr::I32Const(1),
            Instr::LocalSet(4),
            Instr::Else,
            Instr::I32Const(2),
            Instr::LocalSet(4),
            Instr::End,
        ]
    );


    let out = lower_block(
        &fork(I32, Opcode::Brz),
        vec![(1, BranchMode::LoopBreakIntoMulti(5))],
        dispatch(),
        &[3],
    );
    assert_eq!(out.result, Err(TranslationError::MissingLoop(5)));
}

#[test]
fn the_first_entry_for_a_destination_counts() {
    let edges = vec![(2, BranchMode::LoopContinue(1)), (2, BranchMode::LoopBreak(1))];
    let out = lower_block(&fork(I32, Opcode::Brz), edges, vec![], &[1]);
    assert_eq!(count(&out.code, Instr::Br(InstrSeqId::Loop(1))), 1);
    assert_eq!(count(&out.code, Instr::Br(InstrSeqId::Exit(1))), 0);
}

#[test]
fn a_long_block_is_lowered() {
    let mut b = Builder::new(&[I32], &[I32]);
    let arg = b.block(0, &[I32])[0];
    let mut sum = arg;
    for n in 0..50_000 {
        let unused = b.iconst(0, I32, n);
        let _ = b.iadd(0, unused, unused);
        if n % 100 == 0 {
            sum = b.iadd_imm(0, sum, 1);
        }
    }
    b.return_(0, &[sum]);
    let body = translate_function(&b.finish()).unwrap();
    assert_eq!(body.instrs.len(), 1 + 2 * 500 + 2);
    assert_eq!(body.instrs[0], Instr::LocalGet(0));
    assert_eq!(body.instrs[1], Instr::I32Const(1));
    assert_eq!(body.instrs[2], Instr::Binop(BinaryOp::I32Add));
    assert_eq!(body.instrs[1001], Instr::Return);
}

/// `block0(v0: i32): brnz v0, block1; jump block2`, where `block1` returns 1
/// and `block2` returns 2.
fn either() -> SourceFunction {
    let mut b = Builder::new(&[I32], &[I32]);
    let arg = b.block(0, &[I32])[0];
    b.brnz(0, arg, 1, &[]);
    b.jump(0, 2, &[]);
    b.block(1, &[]);
    let one = b.iconst(1, I32, 1);
    b.return_(1, &[one]);
    b.block(2, &[]);
    let two = b.iconst(2, I32, 2);
    b.return_(2, &[two]);
    b.finish()
}

#[test]
fn only_blocks_with_parameters_have_an_entry_in_the_table() {
    let mut locals = ModuleLocals::new();
    let table = OperandTable::fill(&either(), &mut locals).unwrap();
    let expected: HashMap<u32, Vec<(u32, usize)>> = [(0, vec![(0, 0)])].into_iter().collect();
    assert_eq!(table.block_params, expected);
    assert_eq!(locals.types, vec![ValType::I32]);

    let mut b = Builder::new(&[], &[I32]);
    b.block(0, &[]);
    let left = b.iconst(0, I32, 1500);
    let right = b.iconst(0, I32, 1500);
    let sum = b.iadd(0, left, right);
    b.return_(0, &[sum]);
    let mut locals = ModuleLocals::new();
    locals.add(ValType::F64);
    let table = OperandTable::fill(&b.finish(), &mut locals).unwrap();
    assert!(table.block_params.is_empty());
    assert_eq!(table.rematerialize, [left, right].into_iter().collect::<HashSet<u32>>());
    assert_eq!(table.value_uses, [(sum, 1)].into_iter().collect::<HashMap<u32, usize>>());
    assert_eq!(locals.types, vec![ValType::F64]);
}

#[test]
fn a_branch_to_blocks_without_parameters_chooses_the_arm() {
    let func = either();
    let edges = no_edges();
    let dispatch = vec![(1, BranchInstr::SetLocal(9)), (2, BranchInstr::SetLocal(9))];
    let cbt = CanBranchTo { from_relooper: &edges, locally_computed: dispatch };
    let out = lower(&func, |t, c| build_wasm_block(0, t, c, &cbt));
    assert_eq!(out.result, Ok(()));
    assert_eq!(
        out.code,
        vec![
            Instr::LocalGet(0),
            Instr::I32Const(0),
            Instr::Binop(BinaryOp::I32Ne),
            Instr::If,
            Instr::I32Const(1),
            Instr::LocalSet(9),
            Instr::Else,
            Instr::I32Const(2),
            Instr::LocalSet(9),
            Instr::End,
        ]
    );
}

#[test]
fn the_graph_that_is_restructured() {
    let func = either();
    let (graph, first) = wasm_backend::shaping_input(&func).unwrap();
    assert_eq!(first, 0);
    assert_eq!(graph, vec![(0, vec![1, 2]), (1, vec![]), (2, vec![])]);
    assert_eq!(Ok(graph), wasm_backend::translator::relooper_input(&func));
    let mut b = Builder::new(&[], &[]);
    b.block(0, &[]);
    b.return_(0, &[]);
    b.block(1, &[]);
    b.jump(1, 0, &[]);
    let func = b.finish();
    assert_eq!(wasm_backend::translator::relooper_input(&func), Ok(vec![(0, vec![]), (1, vec![0])]));
    assert_eq!(wasm_backend::shaping_input(&func), Ok((vec![(0, vec![])], 0)));
    let mut b = Builder::new(&[], &[]);
    b.block(0, &[]);
    b.jump(0, 7, &[]);
    assert_eq!(wasm_backend::shaping_input(&b.finish()), Err(TranslationError::UnknownBlock(7)));
}

#[test]
fn a_selector_cannot_dispatch_on_the_number_that_chooses_no_arm() {
    let func = either();
    let edges = no_edges();
    let dispatch = vec![(0x7fff_ffff, BranchInstr::SetLocal(9)), (2, BranchInstr::SetLocal(9))];
    let cbt = CanBranchTo { from_relooper: &edges, locally_computed: dispatch };
    let out = lower(&func, |t, c| build_wasm_block(0, t, c, &cbt));
    assert_eq!(out.result, Err(TranslationError::ReservedBlock(0x7fff_ffff)));
    assert_eq!(TranslationError::ReservedBlock(0x7fff_ffff).class(), ErrorClass::IntegrityViolation);

    let dispatch = vec![(5, BranchInstr::SetLocal(9)), (2, BranchInstr::SetLocal(9))];
    let cbt = CanBranchTo { from_relooper: &edges, locally_computed: dispatch };
    let out = lower(&func, |t, c| build_wasm_block(0, t, c, &cbt));
    assert_eq!(out.result, Ok(()));
    assert_eq!(
        out.code,
        vec![
            Instr::LocalGet(0),
            Instr::I32Const(0),
            Instr::Binop(BinaryOp::I32Ne),
            Instr::If,
            Instr::I32Const(0x7fff_ffff),
            Instr::LocalSet(9),
            Instr::Else,
            Instr::I32Const(2),
            Instr::LocalSet(9),
            Instr::End,
        ]
    );
}
