//! The source representation: functions in SSA form over a control-flow graph
//! of basic blocks.

use vstd::prelude::*;

verus! {

/// An SSA value, by its index in [`SourceFunction::values`].
pub type Value = u32;

/// An instruction, by its index in [`SourceFunction::insts`].
pub type Inst = u32;

/// A basic block, by its id.
pub type Block = u32;

/// The kind of a source type.
#[derive(Clone, Copy, Debug, PartialEq, Eq, Structural)]
pub enum TypeKind {
    /// An integer.
    Int,
    /// A boolean, stored as an integer of its width.
    Bool,
    /// A floating-point number.
    Float,
    /// Anything else: vectors, references, flags.
    Other,
}

/// A scalar source type: a kind and a width in bits.
#[derive(Clone, Copy, Debug, PartialEq, Eq, Structural)]
pub struct Type {
    pub kind: TypeKind,
    pub bits: u16,
}

impl Type {
    /// The integer type of the given width.
    pub fn integer(bits: u16) -> (r: Type)
        ensures
            r == (Type { kind: TypeKind::Int, bits }),
    {
        Type { kind: TypeKind::Int, bits }
    }

    /// The boolean type of the given width.
    pub fn boolean(bits: u16) -> (r: Type)
        ensures
            r == (Type { kind: TypeKind::Bool, bits }),
    {
        Type { kind: TypeKind::Bool, bits }
    }

    /// The floating-point type of the given width.
    pub fn float(bits: u16) -> (r: Type)
        ensures
            r == (Type { kind: TypeKind::Float, bits }),
    {
        Type { kind: TypeKind::Float, bits }
    }

    /// Is this an integer type?
    pub fn is_int(&self) -> (r: bool)
        ensures
            r == (self.kind == TypeKind::Int),
    {
        self.kind == TypeKind::Int
    }

    /// Is this a boolean type?
    pub fn is_bool(&self) -> (r: bool)
        ensures
            r == (self.kind == TypeKind::Bool),
    {
        self.kind == TypeKind::Bool
    }

    /// Is this a floating-point type?
    pub fn is_float(&self) -> (r: bool)
        ensures
            r == (self.kind == TypeKind::Float),
    {
        self.kind == TypeKind::Float
    }

    /// The width in bits.
    pub fn bits(&self) -> (r: u16)
        ensures
            r == self.bits,
    {
        self.bits
    }
}

/// The operation that an instruction performs.
#[derive(Clone, Copy, Debug, PartialEq, Eq, Structural)]
pub enum Opcode {
    Jump,
    Brz,
    Brnz,
    Return,
    Iconst,
    Iadd,
    Isub,
    Icmp,
    IcmpImm,
    IaddImm,
    /// Any other operation, by a number of the front-end's choosing.
    Other(u16),
}

/// A condition on two integers.
#[derive(Clone, Copy, Debug, PartialEq, Eq, Structural)]
pub enum IntCC {
    Equal,
    NotEqual,
    SignedLessThan,
    SignedGreaterThanOrEqual,
    SignedGreaterThan,
    SignedLessThanOrEqual,
    UnsignedLessThan,
    UnsignedGreaterThanOrEqual,
    UnsignedGreaterThan,
    UnsignedLessThanOrEqual,
    Overflow,
    NotOverflow,
}

/// Where a value is defined.
#[derive(Clone, Copy, Debug, PartialEq, Eq, Structural)]
pub enum ValueDef {
    /// The result with the given number of an instruction.
    Result(Inst, usize),
    /// The parameter with the given number of a block.
    Param(Block, usize),
}

/// What is known of a value: its type and its definition.
#[derive(Clone, Copy, Debug, PartialEq, Eq, Structural)]
pub struct ValueData {
    pub ty: Type,
    pub def: ValueDef,
}

/// An instruction, by its format.
#[derive(Clone, Debug, PartialEq, Eq)]
pub enum InstructionData {
    /// One value operand.
    Unary { opcode: Opcode, arg: Value },
    /// One immediate operand.
    UnaryImm { opcode: Opcode, imm: i64 },
    /// Two value operands.
    Binary { opcode: Opcode, left: Value, right: Value },
    /// A value operand and an immediate operand.
    BinaryImm64 { opcode: Opcode, arg: Value, imm: i64 },
    /// An integer comparison of two values.
    IntCompare { opcode: Opcode, left: Value, right: Value, cond: IntCC },
    /// An integer comparison of a value with an immediate.
    IntCompareImm { opcode: Opcode, arg: Value, cond: IntCC, imm: i64 },
    /// An unconditional jump. The arguments are matched by position against
    /// the parameters of the destination.
    Jump { opcode: Opcode, args: Vec<Value>, destination: Block },
    /// A conditional branch. The first argument is the condition, the others
    /// are matched by position against the parameters of the destination.
    Branch { opcode: Opcode, args: Vec<Value>, destination: Block },
    /// Any number of value operands, as `return` has.
    MultiAry { opcode: Opcode, args: Vec<Value> },
    /// An atomic compare-and-swap.
    AtomicCas { opcode: Opcode, args: Vec<Value> },
    /// An atomic read-modify-write.
    AtomicRmw { opcode: Opcode, args: Vec<Value> },
    /// Any other format.
    Other { opcode: Opcode, args: Vec<Value> },
}

/// An instruction with the values that it defines.
#[derive(Clone, Debug, PartialEq, Eq)]
pub struct InstData {
    pub data: InstructionData,
    pub results: Vec<Value>,
}

/// A basic block: its id, its parameters and its instructions, in order.
#[derive(Clone, Debug, PartialEq, Eq)]
pub struct BlockData {
    pub block: Block,
    pub params: Vec<Value>,
    pub insts: Vec<Inst>,
}

/// A parameter or a return value of a signature.
#[derive(Clone, Copy, Debug, PartialEq, Eq, Structural)]
pub struct AbiParam {
    pub value_type: Type,
}

/// The parameters and return values of a function.
#[derive(Clone, Debug, PartialEq, Eq)]
pub struct Signature {
    pub params: Vec<AbiParam>,
    pub returns: Vec<AbiParam>,
}

/// A function: its values, its instructions, and its blocks in layout order.
/// The first block of the layout is the entry block.
#[derive(Clone, Debug, PartialEq, Eq)]
pub struct SourceFunction {
    pub signature: Signature,
    pub values: Vec<ValueData>,
    pub insts: Vec<InstData>,
    pub layout: Vec<BlockData>,
}

/// The value operands of an instruction, in order.
pub open spec fn inst_args(data: InstructionData) -> Seq<Value> {
    match data {
        InstructionData::Unary { arg, .. } => seq![arg],
        InstructionData::UnaryImm { .. } => seq![],
        InstructionData::Binary { left, right, .. } => seq![left, right],
        InstructionData::BinaryImm64 { arg, .. } => seq![arg],
        InstructionData::IntCompare { left, right, .. } => seq![left, right],
        InstructionData::IntCompareImm { arg, .. } => seq![arg],
        InstructionData::Jump { args, .. } => args@,
        InstructionData::Branch { args, .. } => args@,
        InstructionData::MultiAry { args, .. } => args@,
        InstructionData::AtomicCas { args, .. } => args@,
        InstructionData::AtomicRmw { args, .. } => args@,
        InstructionData::Other { args, .. } => args@,
    }
}

/// The block that an instruction may transfer control to.
pub open spec fn branch_destination(data: InstructionData) -> Option<Block> {
    match data {
        InstructionData::Jump { destination, .. } => Some(destination),
        InstructionData::Branch { destination, .. } => Some(destination),
        _ => None,
    }
}

impl InstructionData {
    /// The block that the instruction may transfer control to.
    pub fn destination(&self) -> (r: Option<Block>)
        ensures
            r == branch_destination(*self),
    {
        match self {
            InstructionData::Jump { destination, .. } => Some(*destination),
            InstructionData::Branch { destination, .. } => Some(*destination),
            _ => None,
        }
    }

    /// The number of value operands.
    pub fn num_args(&self) -> (n: usize)
        ensures
            n == inst_args(*self).len(),
    {
        match self {
            InstructionData::Unary { .. } => 1,
            InstructionData::UnaryImm { .. } => 0,
            InstructionData::Binary { .. } => 2,
            InstructionData::BinaryImm64 { .. } => 1,
            InstructionData::IntCompare { .. } => 2,
            InstructionData::IntCompareImm { .. } => 1,
            InstructionData::Jump { args, .. } => args.len(),
            InstructionData::Branch { args, .. } => args.len(),
            InstructionData::MultiAry { args, .. } => args.len(),
            InstructionData::AtomicCas { args, .. } => args.len(),
            InstructionData::AtomicRmw { args, .. } => args.len(),
            InstructionData::Other { args, .. } => args.len(),
        }
    }

    /// The value operand at a position.
    pub fn arg(&self, i: usize) -> (v: Value)
        requires
            i < inst_args(*self).len(),
        ensures
            v == inst_args(*self)[i as int],
    {
        match self {
            InstructionData::Unary { arg, .. } => *arg,
            InstructionData::UnaryImm { .. } => 0,
            InstructionData::Binary { left, right, .. } => if i == 0 { *left } else { *right },
            InstructionData::BinaryImm64 { arg, .. } => *arg,
            InstructionData::IntCompare { left, right, .. } => if i == 0 { *left } else { *right },
            InstructionData::IntCompareImm { arg, .. } => *arg,
            InstructionData::Jump { args, .. } => args[i],
            InstructionData::Branch { args, .. } => args[i],
            InstructionData::MultiAry { args, .. } => args[i],
            InstructionData::AtomicCas { args, .. } => args[i],
            InstructionData::AtomicRmw { args, .. } => args[i],
            InstructionData::Other { args, .. } => args[i],
        }
    }
}

impl SourceFunction {
    /// The value data of a value id, if the function defines it.
    pub open spec fn spec_value(&self, v: Value) -> Option<ValueData> {
        if (v as int) < self.values@.len() {
            Some(self.values@[v as int])
        } else {
            None
        }
    }

    /// The instruction of an instruction id, if the function defines it.
    pub open spec fn spec_inst(&self, i: Inst) -> Option<InstData> {
        if (i as int) < self.insts@.len() {
            Some(self.insts@[i as int])
        } else {
            None
        }
    }

    /// The value data of a value id, if the function defines it.
    pub fn value(&self, v: Value) -> (r: Option<ValueData>)
        ensures
            r == self.spec_value(v),
    {
        if (v as usize) < self.values.len() {
            Some(self.values[v as usize])
        } else {
            None
        }
    }

    /// The instruction of an instruction id, if the function defines it.
    pub fn inst(&self, i: Inst) -> (r: Option<&InstData>)
        ensures
            r == (match self.spec_inst(i) {
                Some(d) => Some(&d),
                None => None,
            }),
    {
        if (i as usize) < self.insts.len() {
            Some(&self.insts[i as usize])
        } else {
            None
        }
    }
}

} // verus!
