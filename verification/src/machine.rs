//! What the virtual machine does, as a mathematical model.
//!
//! The machine is an absolute-indexed stack machine. Each procedure
//! activation owns a frame on the stack. The first three slots of a frame
//! are its block mark: the static link (base of the lexically enclosing
//! frame), the dynamic link (base of the caller's frame) and the return
//! address.
use vstd::prelude::*;
use crate::bytecode::{Instr, Math, OpCode};
use crate::errors::ErrorKind;
use crate::limits::{CODE_SIZE, STACK_SIZE};

verus! {

/// The registers and the stack of the machine.
pub struct Machine {
    /// Index of the next instruction.
    pub pc: int,
    /// Start of the current frame.
    pub base: int,
    /// Index of the topmost value on the stack.
    pub top: int,
    pub stack: Seq<i32>,
}

/// What one instruction did besides changing the machine.
#[derive(Debug, Clone, Copy)]
pub struct Tick {
    /// The value handed to the host by a write.
    pub wrote: Option<i32>,
    /// Whether a value was obtained from the host.
    pub read: bool,
    /// Whether the machine has halted: the program counter is back at zero.
    pub halted: bool,
}

/// The value that is nearest to `x` among those that differ from it by a
/// multiple of 2^32: arithmetic wraps within a 32-bit signed value.
pub open spec fn wrap(x: int) -> i32 {
    let m = x % 0x1_0000_0000;
    if m > i32::MAX {
        (m - 0x1_0000_0000) as i32
    } else {
        m as i32
    }
}

/// Division that truncates toward zero.
pub open spec fn trunc_div(x: int, d: int) -> int
    recommends
        d != 0,
{
    if x >= 0 && d > 0 {
        x / d
    } else if x < 0 && d < 0 {
        (-x) / (-d)
    } else if x < 0 {
        -((-x) / d)
    } else {
        -(x / (-d))
    }
}

pub open spec fn truth(b: bool) -> i32 {
    if b {
        1
    } else {
        0
    }
}

impl Math {
    /// Whether the operator takes one operand: the others take two.
    pub open spec fn is_unary(self) -> bool {
        self == Math::Neg || self == Math::Odd
    }

    /// The result of a unary operator.
    pub open spec fn apply1(self, x: i32) -> i32
        recommends
            self.is_unary(),
    {
        if self == Math::Neg {
            wrap(-x)
        } else {
            truth(x % 2 != 0)
        }
    }

    /// The result of a binary operator on `x` (below) and `y` (on top).
    pub open spec fn apply2(self, x: i32, y: i32) -> i32
        recommends
            !self.is_unary(),
            self == Math::Div ==> y != 0,
    {
        match self {
            Math::Add => wrap(x + y),
            Math::Sub => wrap(x - y),
            Math::Mul => wrap(x * y),
            Math::Div => wrap(trunc_div(x as int, y as int)),
            Math::Eq => truth(x == y),
            Math::NotEq => truth(x != y),
            Math::Less => truth(x < y),
            Math::LessEq => truth(x <= y),
            Math::Great => truth(x > y),
            Math::GreatEq => truth(x >= y),
            _ => x,
        }
    }
}

/// The code space of a machine that was loaded with `chunk`: the chunk,
/// padded with no-ops.
pub open spec fn load(chunk: Seq<Instr>) -> Seq<Instr>
    recommends
        chunk.len() <= CODE_SIZE,
{
    Seq::new(
        CODE_SIZE as nat,
        |i: int|
            if i < chunk.len() {
                chunk[i]
            } else {
                Instr::noop()
            },
    )
}

impl Machine {
    /// The machine before its first instruction. Slot 0 is a sentinel:
    /// the outermost frame starts at 1 and its block mark is all zero.
    pub open spec fn initial() -> Machine {
        Machine { pc: 0, base: 1, top: 0, stack: Seq::new(STACK_SIZE as nat, |i: int| 0i32) }
    }

    pub open spec fn wf(self) -> bool {
        &&& self.stack.len() == STACK_SIZE
        &&& 0 <= self.pc < CODE_SIZE
        &&& 0 <= self.base < STACK_SIZE
        &&& 0 <= self.top < STACK_SIZE
    }

    /// The base of the frame that is `level` static links away from the
    /// frame at `base`, if every link on the way points into the stack.
    pub open spec fn find_base(self, base: int, level: nat) -> Option<int>
        decreases level,
    {
        if level == 0 {
            Some(base)
        } else if 0 <= base < self.stack.len() && 0 <= self.stack[base] < STACK_SIZE {
            self.find_base(self.stack[base] as int, (level - 1) as nat)
        } else {
            None
        }
    }

    pub open spec fn push(self, pc: int, v: i32) -> Result<Machine, ErrorKind> {
        if self.top + 1 >= STACK_SIZE {
            Err(ErrorKind::StackOverflow)
        } else {
            Ok(
                Machine {
                    pc,
                    top: self.top + 1,
                    stack: self.stack.update(self.top + 1, v),
                    ..self
                },
            )
        }
    }

    /// The machine after the instruction `instr`, which was fetched at
    /// `self.pc`; `input` is what a read obtains from the host.
    pub open spec fn exec(self, instr: Instr, input: Option<i32>) -> Result<Machine, ErrorKind> {
        let next = (self.pc + 1) % (CODE_SIZE as int);
        let a = instr.a as int;
        match instr.opcode {
            OpCode::NoOp => Ok(Machine { pc: next, ..self }),
            OpCode::Lit => self.push(next, instr.a as i32),
            OpCode::Load => match self.find_base(self.base, instr.l as nat) {
                None => Err(ErrorKind::InvalidFrame),
                Some(b) => if b + a >= STACK_SIZE {
                    Err(ErrorKind::StackOverflow)
                } else {
                    self.push(next, self.stack[b + a])
                },
            },
            OpCode::Store => match self.find_base(self.base, instr.l as nat) {
                None => Err(ErrorKind::InvalidFrame),
                Some(b) => if b + a >= STACK_SIZE {
                    Err(ErrorKind::StackOverflow)
                } else if self.top == 0 {
                    Err(ErrorKind::StackUnderflow)
                } else {
                    Ok(
                        Machine {
                            pc: next,
                            top: self.top - 1,
                            stack: self.stack.update(b + a, self.stack[self.top]),
                            ..self
                        },
                    )
                },
            },
            OpCode::Call => match self.find_base(self.base, instr.l as nat) {
                None => Err(ErrorKind::InvalidFrame),
                Some(b) => if self.top + 3 >= STACK_SIZE {
                    Err(ErrorKind::StackOverflow)
                } else if a >= CODE_SIZE {
                    Err(ErrorKind::InvalidJump)
                } else {
                    Ok(
                        Machine {
                            pc: a,
                            base: self.top + 1,
                            top: self.top,
                            stack: self.stack.update(self.top + 1, b as i32).update(
                                self.top + 2,
                                self.base as i32,
                            ).update(self.top + 3, next as i32),
                        },
                    )
                },
            },
            OpCode::Return => if self.base == 0 {
                Err(ErrorKind::StackUnderflow)
            } else if self.base + 2 >= STACK_SIZE {
                Err(ErrorKind::StackOverflow)
            } else if !(0 <= self.stack[self.base + 2] < CODE_SIZE) {
                Err(ErrorKind::InvalidJump)
            } else if !(0 <= self.stack[self.base + 1] < STACK_SIZE) {
                Err(ErrorKind::InvalidFrame)
            } else {
                Ok(
                    Machine {
                        pc: self.stack[self.base + 2] as int,
                        base: self.stack[self.base + 1] as int,
                        top: self.base - 1,
                        stack: self.stack,
                    },
                )
            },
            OpCode::IncTop => if self.top + a >= STACK_SIZE {
                Err(ErrorKind::StackOverflow)
            } else {
                Ok(Machine { pc: next, top: self.top + a, ..self })
            },
            OpCode::Jump => if a >= CODE_SIZE {
                Err(ErrorKind::InvalidJump)
            } else {
                Ok(Machine { pc: a, ..self })
            },
            OpCode::JumpIfZero => if self.top == 0 {
                Err(ErrorKind::StackUnderflow)
            } else if self.stack[self.top] != 0 {
                Ok(Machine { pc: next, top: self.top - 1, ..self })
            } else if a >= CODE_SIZE {
                Err(ErrorKind::InvalidJump)
            } else {
                Ok(Machine { pc: a, top: self.top - 1, ..self })
            },
            OpCode::Math(op) => if op.is_unary() {
                Ok(
                    Machine {
                        pc: next,
                        stack: self.stack.update(self.top, op.apply1(self.stack[self.top])),
                        ..self
                    },
                )
            } else if self.top == 0 {
                Err(ErrorKind::StackUnderflow)
            } else if op == Math::Div && self.stack[self.top] == 0 {
                Err(ErrorKind::DivisionByZero)
            } else {
                Ok(
                    Machine {
                        pc: next,
                        top: self.top - 1,
                        stack: self.stack.update(
                            self.top - 1,
                            op.apply2(self.stack[self.top - 1], self.stack[self.top]),
                        ),
                        ..self
                    },
                )
            },
            OpCode::Write => if self.top == 0 {
                Err(ErrorKind::StackUnderflow)
            } else {
                Ok(Machine { pc: next, top: self.top - 1, ..self })
            },
            OpCode::Read => self.push(
                next,
                match input {
                    Some(v) => v,
                    None => 0,
                },
            ),
        }
    }

    /// What the instruction `instr` tells the host, when it leaves the machine as `after`.
    pub open spec fn tick(self, instr: Instr, after: Machine) -> Tick {
        Tick {
            wrote: if instr.opcode == OpCode::Write {
                Some(self.stack[self.top])
            } else {
                None
            },
            read: instr.opcode == OpCode::Read,
            halted: after.pc == 0,
        }
    }

    /// One cycle of the machine on `code`: fetch, advance, dispatch.
    pub open spec fn step(self, code: Seq<Instr>, input: Option<i32>) -> Result<
        (Machine, Tick),
        ErrorKind,
    >
        recommends
            self.wf(),
            code.len() == CODE_SIZE,
    {
        match self.exec(code[self.pc], input) {
            Ok(after) => Ok((after, self.tick(code[self.pc], after))),
            Err(kind) => Err(kind),
        }
    }
}

/// A machine together with what it has read and written so far.
pub struct Run {
    pub machine: Machine,
    /// How many values of the input were read.
    pub reads: nat,
    /// The values that were written, in order.
    pub output: Seq<i32>,
}

/// How a run ended.
pub enum Ending {
    /// The program counter came back to zero.
    Halted,
    /// An instruction could not be carried out.
    Fault(ErrorKind),
    /// The steps that were allowed are used up.
    OutOfSteps,
}

impl Run {
    pub open spec fn initial() -> Run {
        Run { machine: Machine::initial(), reads: 0, output: Seq::empty() }
    }

    /// The value that the next read obtains from `input`, if one is left.
    pub open spec fn next_input(self, input: Seq<i32>) -> Option<i32> {
        if self.reads < input.len() {
            Some(input[self.reads as int])
        } else {
            None
        }
    }

    /// The run after one more cycle, which left the machine as `after`.
    pub open spec fn advance(self, input: Seq<i32>, after: Machine, tick: Tick) -> Run {
        Run {
            machine: after,
            reads: if tick.read && self.reads < input.len() {
                self.reads + 1
            } else {
                self.reads
            },
            output: match tick.wrote {
                Some(v) => self.output.push(v),
                None => self.output,
            },
        }
    }

    /// The run of `code` from here, with reads served from `input` and zero
    /// when it is used up, for at most `steps` cycles: where it stops, and why.
    pub open spec fn run(self, code: Seq<Instr>, input: Seq<i32>, steps: nat) -> (Run, Ending)
        decreases steps,
    {
        if steps == 0 {
            (self, Ending::OutOfSteps)
        } else {
            match self.machine.step(code, self.next_input(input)) {
                Err(kind) => (self, Ending::Fault(kind)),
                Ok((after, tick)) => {
                    let then = self.advance(input, after, tick);
                    if tick.halted {
                        (then, Ending::Halted)
                    } else {
                        then.run(code, input, (steps - 1) as nat)
                    }
                },
            }
        }
    }
}

/// A frame that is found by following static links lies in the stack.
pub proof fn lemma_find_base_range(m: Machine, base: int, level: nat)
    requires
        0 <= base < STACK_SIZE,
    ensures
        m.find_base(base, level) matches Some(b) ==> 0 <= b < STACK_SIZE,
    decreases level,
{
    if level > 0 && 0 <= base < m.stack.len() && 0 <= m.stack[base] < STACK_SIZE {
        lemma_find_base_range(m, m.stack[base] as int, (level - 1) as nat);
    }
}

/// A step keeps the machine well-formed.
pub proof fn lemma_exec_wf(m: Machine, instr: Instr, input: Option<i32>)
    requires
        m.wf(),
    ensures
        m.exec(instr, input) matches Ok(after) ==> after.wf(),
{
    lemma_find_base_range(m, m.base, instr.l as nat);
}

/// What a run does is decided by the code, the input and the steps it is
/// allowed, and the steps only decide whether it is cut short: a run that
/// has halted or faulted ends the same when it is allowed more steps.
pub proof fn lemma_more_steps(r: Run, code: Seq<Instr>, input: Seq<i32>, steps: nat, more: nat)
    requires
        steps <= more,
        r.run(code, input, steps).1 != Ending::OutOfSteps,
    ensures
        r.run(code, input, more) == r.run(code, input, steps),
    decreases steps,
{
    if let Ok((after, tick)) = r.machine.step(code, r.next_input(input)) {
        if !tick.halted {
            lemma_more_steps(
                r.advance(input, after, tick),
                code,
                input,
                (steps - 1) as nat,
                (more - 1) as nat,
            );
        }
    }
}

} // verus!
