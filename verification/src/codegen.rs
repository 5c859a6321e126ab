//! Code generator interface.
use vstd::prelude::*;
use crate::bytecode::{Instr, Math, OpCode};
use crate::errors::{ErrorKind, Result};
use crate::limits::CODE_SIZE;

verus! {

/// The instruction with opcode `opcode`, level 0 and address 0.
pub open spec fn plain(opcode: OpCode) -> Instr {
    Instr { opcode, l: 0, a: 0 }
}

/// What appending `instr` does to a code buffer: the instruction is added
/// at the end while the code space has room for it, and is refused after that.
pub open spec fn emitted(
    before: Seq<Instr>,
    after: Seq<Instr>,
    instr: Instr,
    r: Result<()>,
) -> bool {
    if before.len() < CODE_SIZE {
        r is Ok && after == before.push(instr)
    } else {
        &&& r matches Err(e) && e.is(ErrorKind::CodeTooLarge, Seq::empty())
        &&& after == before
    }
}

/// What reserving a jump with opcode `opcode` does to a code buffer, and
/// the index that it gives back: that of the placeholder.
pub open spec fn reserved(
    before: Seq<Instr>,
    after: Seq<Instr>,
    opcode: OpCode,
    r: Result<usize>,
) -> bool {
    if before.len() < CODE_SIZE {
        r == Ok::<usize, crate::errors::Error>(before.len() as usize) && after == before.push(
            plain(opcode),
        )
    } else {
        &&& r matches Err(e) && e.is(ErrorKind::CodeTooLarge, Seq::empty())
        &&& after == before
    }
}

/// The code buffer after the jump at `index` was given the target `addr`.
pub open spec fn patched(before: Seq<Instr>, index: int, addr: u16) -> Seq<Instr>
    recommends
        0 <= index < before.len(),
{
    before.update(index, Instr { a: addr, ..before[index] })
}

/// An append-only buffer of instructions, with reserve-and-patch for
/// forward jumps.
pub trait CodeGen {
    /// The instructions emitted so far.
    spec fn code(&self) -> Seq<Instr>;

    fn emit_lit(&mut self, num: i32) -> (r: Result<()>)
        ensures
            emitted(
                old(self).code(),
                final(self).code(),
                Instr { opcode: OpCode::Lit, l: 0, a: num as u16 },
                r,
            ),
    ;

    fn emit_return(&mut self) -> (r: Result<()>)
        ensures
            emitted(old(self).code(), final(self).code(), plain(OpCode::Return), r),
    ;

    fn emit_math_neg(&mut self) -> (r: Result<()>)
        ensures
            emitted(old(self).code(), final(self).code(), plain(OpCode::Math(Math::Neg)), r),
    ;

    fn emit_math_add(&mut self) -> (r: Result<()>)
        ensures
            emitted(old(self).code(), final(self).code(), plain(OpCode::Math(Math::Add)), r),
    ;

    fn emit_math_sub(&mut self) -> (r: Result<()>)
        ensures
            emitted(old(self).code(), final(self).code(), plain(OpCode::Math(Math::Sub)), r),
    ;

    fn emit_math_mul(&mut self) -> (r: Result<()>)
        ensures
            emitted(old(self).code(), final(self).code(), plain(OpCode::Math(Math::Mul)), r),
    ;

    fn emit_math_div(&mut self) -> (r: Result<()>)
        ensures
            emitted(old(self).code(), final(self).code(), plain(OpCode::Math(Math::Div)), r),
    ;

    fn emit_math_odd(&mut self) -> (r: Result<()>)
        ensures
            emitted(old(self).code(), final(self).code(), plain(OpCode::Math(Math::Odd)), r),
    ;

    fn emit_math_eq(&mut self) -> (r: Result<()>)
        ensures
            emitted(old(self).code(), final(self).code(), plain(OpCode::Math(Math::Eq)), r),
    ;

    fn emit_math_noteq(&mut self) -> (r: Result<()>)
        ensures
            emitted(old(self).code(), final(self).code(), plain(OpCode::Math(Math::NotEq)), r),
    ;

    fn emit_math_lt(&mut self) -> (r: Result<()>)
        ensures
            emitted(old(self).code(), final(self).code(), plain(OpCode::Math(Math::Less)), r),
    ;

    fn emit_math_gte(&mut self) -> (r: Result<()>)
        ensures
            emitted(old(self).code(), final(self).code(), plain(OpCode::Math(Math::GreatEq)), r),
    ;

    fn emit_math_gt(&mut self) -> (r: Result<()>)
        ensures
            emitted(old(self).code(), final(self).code(), plain(OpCode::Math(Math::Great)), r),
    ;

    fn emit_math_lte(&mut self) -> (r: Result<()>)
        ensures
            emitted(old(self).code(), final(self).code(), plain(OpCode::Math(Math::LessEq)), r),
    ;

    fn emit_load(&mut self, level: u8, addr: u16) -> (r: Result<()>)
        ensures
            emitted(
                old(self).code(),
                final(self).code(),
                Instr { opcode: OpCode::Load, l: level, a: addr },
                r,
            ),
    ;

    fn emit_store(&mut self, level: u8, addr: u16) -> (r: Result<()>)
        ensures
            emitted(
                old(self).code(),
                final(self).code(),
                Instr { opcode: OpCode::Store, l: level, a: addr },
                r,
            ),
    ;

    fn emit_call(&mut self, level: u8, addr: u16) -> (r: Result<()>)
        ensures
            emitted(
                old(self).code(),
                final(self).code(),
                Instr { opcode: OpCode::Call, l: level, a: addr },
                r,
            ),
    ;

    fn emit_write(&mut self) -> (r: Result<()>)
        ensures
            emitted(old(self).code(), final(self).code(), plain(OpCode::Write), r),
    ;

    fn emit_read(&mut self) -> (r: Result<()>)
        ensures
            emitted(old(self).code(), final(self).code(), plain(OpCode::Read), r),
    ;

    fn emit_inc_top(&mut self, offset: u16) -> (r: Result<()>)
        ensures
            emitted(
                old(self).code(),
                final(self).code(),
                Instr { opcode: OpCode::IncTop, l: 0, a: offset },
                r,
            ),
    ;

    fn emit_jump(&mut self, addr: u16) -> (r: Result<()>)
        ensures
            emitted(
                old(self).code(),
                final(self).code(),
                Instr { opcode: OpCode::Jump, l: 0, a: addr },
                r,
            ),
    ;

    /// Appends a jump whose target is not known yet, and returns its index.
    fn reserve_jump(&mut self) -> (r: Result<usize>)
        ensures
            reserved(old(self).code(), final(self).code(), OpCode::Jump, r),
    ;

    /// Appends a conditional jump whose target is not known yet, and returns its index.
    fn reserve_jump_if_zero(&mut self) -> (r: Result<usize>)
        ensures
            reserved(old(self).code(), final(self).code(), OpCode::JumpIfZero, r),
    ;

    /// Sets the target of the jump at `index`. Only jumps are patched.
    fn patch_jump(&mut self, index: usize, addr: u16) -> (r: Result<()>)
        requires
            index < old(self).code().len(),
            old(self).code()[index as int].is_jump(),
        ensures
            r is Ok,
            final(self).code() == patched(old(self).code(), index as int, addr),
    ;

    /// The address that the next emitted instruction will have.
    fn len(&self) -> (n: usize)
        ensures
            n == self.code().len(),
    ;
}

} // verus!
