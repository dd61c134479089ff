//! The lowerings: of types, conditions and signatures, of instructions and
//! their operands, and of blocks with their terminators.

pub mod block;
pub mod cond;
pub mod inst;
pub mod sig;
pub mod ty;
