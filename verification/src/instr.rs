//! Instruction and value types shared by the decoder and the engine.

use vstd::prelude::*;

verus! {

/// One bytecode instruction. The `usize` operand of `LoadConst`,
/// `StoreFast` and `LoadFast` is a non-negative address: a local-variable
/// slot index, or (for `LoadConst`) the constant operand itself, which the
/// engine resolves as a literal value. Instructions are immutable once
/// decoded.
#[derive(Clone, Copy, Debug, PartialEq, Eq, Structural)]
pub enum Instruction {
    /// Push the constant with operand `i` onto the operand stack.
    LoadConst(usize),
    /// Pop the top of the stack and store it into local slot `i`.
    StoreFast(usize),
    /// Push a copy of the value held in local slot `i`.
    LoadFast(usize),
    /// Pop two values and push their sum.
    BinaryAdd,
    /// Pop one value; that value is the program's result and execution halts.
    ReturnValue,
}

/// A runtime value. The value domain is a tagged union with a single
/// variant in scope: a signed 64-bit integer.
#[derive(Clone, Copy, Debug, PartialEq, Eq, Structural)]
pub enum Value {
    Int(i64),
}

} // verus!
