//! Executable VM bytecode.
use vstd::prelude::*;

verus! {

/// Arithmetic operator instruction types.
#[derive(Debug, Clone, Copy, PartialEq, Eq, Structural)]
pub enum Math {
    Neg,
    Add,
    Sub,
    Mul,
    Div,
    Odd,
    Eq,
    NotEq,
    Less,
    GreatEq,
    Great,
    LessEq,
}

#[derive(Debug, Clone, Copy, PartialEq, Eq, Structural)]
pub enum OpCode {
    /// Only advances the program counter.
    NoOp,
    /// Push number literal onto the top of the stack.
    Lit,
    /// Return from a procedure call.
    Return,
    /// Arithmetic Operators.
    Math(Math),
    /// Load variable onto the top of the stack.
    Load,
    /// Pop the top of the stack into a variable.
    Store,
    /// Call a procedure.
    Call,
    /// Increase the stack top register by `a`.
    IncTop,
    /// Continue at code address `a`.
    Jump,
    /// Pop the top of the stack, and continue at `a` if it was zero.
    JumpIfZero,
    /// Pop the top of the stack and hand it to the host.
    Write,
    /// Push a number obtained from the host.
    Read,
}

/// Bytecode instruction.
#[derive(Debug, Clone, Copy, PartialEq, Eq, Structural)]
pub struct Instr {
    pub opcode: OpCode,
    /// Level: how many static links to follow.
    pub l: u8,
    /// Displacement address.
    pub a: u16,
}

impl Instr {
    /// The instruction that pads unused code space.
    pub open spec fn noop() -> Instr {
        Instr { opcode: OpCode::NoOp, l: 0, a: 0 }
    }

    /// Whether the `a` field of this instruction is a code address.
    pub open spec fn is_transfer(self) -> bool {
        self.opcode == OpCode::Call || self.opcode == OpCode::Jump || self.opcode
            == OpCode::JumpIfZero
    }

    /// Whether this instruction may have its address filled in later.
    pub open spec fn is_jump(self) -> bool {
        self.opcode == OpCode::Jump || self.opcode == OpCode::JumpIfZero
    }
}

impl Default for Instr {
    fn default() -> (r: Self)
        ensures
            r == Instr::noop(),
    {
        Self { opcode: OpCode::NoOp, l: 0, a: 0 }
    }
}

} // verus!
