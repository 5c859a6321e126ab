//! Capability constants.
use vstd::prelude::*;

verus! {

/// The stack offset, relative to the current call frame's base, where
/// the frame's variables start.
///
/// The first three slots of each frame's stack space are taken up
/// by the block mark (static link, dynamic link, return address).
pub const DATA_OFFSET: usize = 3;

/// Maximum size of the operand stack.
pub const STACK_SIZE: usize = 512;

/// Maximum size of bytecode. A power of two, so that the program counter
/// wraps with a mask.
pub const CODE_SIZE: usize = 1024;

} // verus!
