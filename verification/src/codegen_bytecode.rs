//! Code generator that fills a chunk of bytecode.
use vstd::prelude::*;
use crate::bytecode::{Instr, Math, OpCode};
use crate::codegen::{emitted, CodeGen};
use crate::errors::{Error, ErrorKind, Result};
use crate::limits::CODE_SIZE;
use crate::Chunk;

verus! {

pub struct BytecodeGen {
    buf: Vec<Instr>,
}

impl BytecodeGen {
    pub fn new() -> (r: Self)
        ensures
            r.code() == Seq::<Instr>::empty(),
    {
        Self { buf: Vec::new() }
    }

    /// Hands out the emitted code as a chunk, and starts over with an empty buffer.
    pub fn make_chunk(&mut self) -> (chunk: Chunk)
        ensures
            chunk@ == old(self).code(),
            final(self).code() == Seq::<Instr>::empty(),
    {
        let mut code: Vec<Instr> = Vec::new();
        std::mem::swap(&mut self.buf, &mut code);
        Chunk::new(code)
    }

    /// Appends `instr`, if the code space has room for it.
    fn emit(&mut self, instr: Instr) -> (r: Result<()>)
        ensures
            emitted(old(self).code(), final(self).code(), instr, r),
    {
        if self.buf.len() < CODE_SIZE {
            self.buf.push(instr);
            Ok(())
        } else {
            Err(Error::new(ErrorKind::CodeTooLarge))
        }
    }
}

impl CodeGen for BytecodeGen {
    closed spec fn code(&self) -> Seq<Instr> {
        self.buf@
    }

    fn emit_lit(&mut self, num: i32) -> (r: Result<()>) {
        self.emit(Instr { opcode: OpCode::Lit, l: 0, a: #[verifier::truncate] (num as u16) })
    }

    fn emit_return(&mut self) -> (r: Result<()>) {
        self.emit(Instr { opcode: OpCode::Return, l: 0, a: 0 })
    }

    fn emit_math_neg(&mut self) -> (r: Result<()>) {
        self.emit(Instr { opcode: OpCode::Math(Math::Neg), l: 0, a: 0 })
    }

    fn emit_math_add(&mut self) -> (r: Result<()>) {
        self.emit(Instr { opcode: OpCode::Math(Math::Add), l: 0, a: 0 })
    }

    fn emit_math_sub(&mut self) -> (r: Result<()>) {
        self.emit(Instr { opcode: OpCode::Math(Math::Sub), l: 0, a: 0 })
    }

    fn emit_math_mul(&mut self) -> (r: Result<()>) {
        self.emit(Instr { opcode: OpCode::Math(Math::Mul), l: 0, a: 0 })
    }

    fn emit_math_div(&mut self) -> (r: Result<()>) {
        self.emit(Instr { opcode: OpCode::Math(Math::Div), l: 0, a: 0 })
    }

    fn emit_math_odd(&mut self) -> (r: Result<()>) {
        self.emit(Instr { opcode: OpCode::Math(Math::Odd), l: 0, a: 0 })
    }

    fn emit_math_eq(&mut self) -> (r: Result<()>) {
        self.emit(Instr { opcode: OpCode::Math(Math::Eq), l: 0, a: 0 })
    }

    fn emit_math_noteq(&mut self) -> (r: Result<()>) {
        self.emit(Instr { opcode: OpCode::Math(Math::NotEq), l: 0, a: 0 })
    }

    fn emit_math_lt(&mut self) -> (r: Result<()>) {
        self.emit(Instr { opcode: OpCode::Math(Math::Less), l: 0, a: 0 })
    }

    fn emit_math_gte(&mut self) -> (r: Result<()>) {
        self.emit(Instr { opcode: OpCode::Math(Math::GreatEq), l: 0, a: 0 })
    }

    fn emit_math_gt(&mut self) -> (r: Result<()>) {
        self.emit(Instr { opcode: OpCode::Math(Math::Great), l: 0, a: 0 })
    }

    fn emit_math_lte(&mut self) -> (r: Result<()>) {
        self.emit(Instr { opcode: OpCode::Math(Math::LessEq), l: 0, a: 0 })
    }

    fn emit_load(&mut self, level: u8, addr: u16) -> (r: Result<()>) {
        self.emit(Instr { opcode: OpCode::Load, l: level, a: addr })
    }

    fn emit_store(&mut self, level: u8, addr: u16) -> (r: Result<()>) {
        self.emit(Instr { opcode: OpCode::Store, l: level, a: addr })
    }

    fn emit_call(&mut self, level: u8, addr: u16) -> (r: Result<()>) {
        self.emit(Instr { opcode: OpCode::Call, l: level, a: addr })
    }

    fn emit_write(&mut self) -> (r: Result<()>) {
        self.emit(Instr { opcode: OpCode::Write, l: 0, a: 0 })
    }

    fn emit_read(&mut self) -> (r: Result<()>) {
        self.emit(Instr { opcode: OpCode::Read, l: 0, a: 0 })
    }

    fn emit_inc_top(&mut self, offset: u16) -> (r: Result<()>) {
        self.emit(Instr { opcode: OpCode::IncTop, l: 0, a: offset })
    }

    fn emit_jump(&mut self, addr: u16) -> (r: Result<()>) {
        self.emit(Instr { opcode: OpCode::Jump, l: 0, a: addr })
    }

    fn reserve_jump(&mut self) -> (r: Result<usize>) {
        let index = self.buf.len();
        match self.emit(Instr { opcode: OpCode::Jump, l: 0, a: 0 }) {
            Ok(()) => Ok(index),
            Err(e) => Err(e),
        }
    }

    fn reserve_jump_if_zero(&mut self) -> (r: Result<usize>) {
        let index = self.buf.len();
        match self.emit(Instr { opcode: OpCode::JumpIfZero, l: 0, a: 0 }) {
            Ok(()) => Ok(index),
            Err(e) => Err(e),
        }
    }

    fn patch_jump(&mut self, index: usize, addr: u16) -> (r: Result<()>) {
        let instr = self.buf[index];
        self.buf.set(index, Instr { opcode: instr.opcode, l: instr.l, a: addr });
        Ok(())
    }

    fn len(&self) -> (n: usize) {
        self.buf.len()
    }
}

} // verus!
