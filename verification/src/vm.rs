//! The virtual machine: a fixed-size stack, a program counter and a base
//! register, which execute a chunk of bytecode.
use vstd::prelude::*;
use crate::bytecode::{Instr, Math, OpCode};
use crate::errors::{Error, ErrorKind, Result};
use crate::limits::{CODE_SIZE, STACK_SIZE};
use crate::machine::{load, Ending, Machine, Run, Tick};
use crate::{Chunk, Num, Pl0Config};

verus! {

pub struct Vm {
    /// Program counter register (instruction pointer).
    pc: usize,
    /// Base register.
    ///
    /// Index to the base of the stack for the current call frame.
    base: usize,
    /// Top register.
    ///
    /// Index to the top of the stack.
    top: usize,
    /// Operand stack.
    stack: Vec<i32>,
    /// Executable bytecode.
    code: Vec<Instr>,
    /// What the host has set: the input and the step limit.
    config: Pl0Config,
    /// How many values of the input were read.
    reads: usize,
    /// The values that were written.
    output: Vec<Num>,
}

/// A vector of `n` values `v`.
fn filled<T: Copy>(n: usize, v: T) -> (r: Vec<T>)
    ensures
        r@ == Seq::new(n as nat, |i: int| v),
{
    let mut r: Vec<T> = Vec::new();
    while r.len() < n
        invariant
            r@.len() <= n,
            forall|i: int| 0 <= i < r@.len() ==> r@[i] == v,
        decreases n - r@.len(),
    {
        r.push(v);
    }
    assert(r@ =~= Seq::new(n as nat, |i: int| v));
    r
}

/// The result of a unary operator.
fn apply1(op: Math, x: i32) -> (r: i32)
    requires
        op.is_unary(),
    ensures
        r == op.apply1(x),
{
    match op {
        Math::Neg => 0i32.wrapping_sub(x),
        _ => if x % 2 == 0 {
            0
        } else {
            1
        },
    }
}

/// The result of a binary operator on `x` (below) and `y` (on top).
fn apply2(op: Math, x: i32, y: i32) -> (r: i32)
    requires
        !op.is_unary(),
        op == Math::Div ==> y != 0,
    ensures
        r == op.apply2(x, y),
{
    match op {
        Math::Add => x.wrapping_add(y),
        Math::Sub => x.wrapping_sub(y),
        Math::Mul => x.wrapping_mul(y),
        Math::Div => match x.checked_div(y) {
            Some(q) => q,
            None => i32::MIN,
        },
        Math::Eq => if x == y {
            1
        } else {
            0
        },
        Math::NotEq => if x != y {
            1
        } else {
            0
        },
        Math::Less => if x < y {
            1
        } else {
            0
        },
        Math::LessEq => if x <= y {
            1
        } else {
            0
        },
        Math::Great => if x > y {
            1
        } else {
            0
        },
        Math::GreatEq => if x >= y {
            1
        } else {
            0
        },
        _ => x,
    }
}

impl Vm {
    /// The registers and the stack.
    pub closed spec fn machine(&self) -> Machine {
        Machine {
            pc: self.pc as int,
            base: self.base as int,
            top: self.top as int,
            stack: self.stack@,
        }
    }

    /// The code space: the chunk that was loaded, padded with no-ops.
    pub closed spec fn code_spec(&self) -> Seq<Instr> {
        self.code@
    }

    /// The values that reads obtain, in order.
    pub closed spec fn input(&self) -> Seq<Num> {
        self.config.input@
    }

    /// How many instructions a run may take.
    pub closed spec fn max_steps(&self) -> nat {
        self.config.max_steps as nat
    }

    /// How many values of the input were read.
    pub closed spec fn reads(&self) -> nat {
        self.reads as nat
    }

    /// The values that were written, in order.
    pub closed spec fn written(&self) -> Seq<Num> {
        self.output@
    }

    /// The machine together with what it has read and written.
    pub open spec fn run_state(&self) -> Run {
        Run { machine: self.machine(), reads: self.reads(), output: self.written() }
    }

    pub closed spec fn wf(&self) -> bool {
        &&& self.machine().wf()
        &&& self.code@.len() == CODE_SIZE
        &&& self.reads <= self.config.input@.len()
    }

    /// A machine that reads nothing and is not limited in its steps.
    pub fn new() -> (vm: Self)
        ensures
            vm.wf(),
            vm.machine() == Machine::initial(),
            vm.code_spec() == load(Seq::empty()),
            vm.input() == Seq::<Num>::empty(),
            vm.max_steps() == u64::MAX,
            vm.reads() == 0,
            vm.written() == Seq::<Num>::empty(),
    {
        Self::from_config(Pl0Config::new())
    }

    /// A machine whose reads and step limit are those of `config`.
    pub fn from_config(config: Pl0Config) -> (vm: Self)
        ensures
            vm.wf(),
            vm.machine() == Machine::initial(),
            vm.code_spec() == load(Seq::empty()),
            vm.input() == config.input@,
            vm.max_steps() == config.max_steps,
            vm.reads() == 0,
            vm.written() == Seq::<Num>::empty(),
    {
        let vm = Self {
            pc: 0,
            base: 1,
            top: 0,
            stack: filled(STACK_SIZE, 0i32),
            code: filled(CODE_SIZE, Instr { opcode: OpCode::NoOp, l: 0, a: 0 }),
            config,
            reads: 0,
            output: Vec::new(),
        };
        assert(vm.code@ =~= load(Seq::empty()));
        vm
    }

    /// Makes the machine ready to execute `chunk` from its start: the stack
    /// is zeroed, the chunk is copied into the code space, and what was read
    /// and written before is forgotten. A chunk that is longer than the code
    /// space is refused, and the machine stays as it is.
    pub fn load(&mut self, chunk: &Chunk) -> (r: Result<()>)
        requires
            old(self).wf(),
        ensures
            final(self).wf(),
            final(self).input() == old(self).input(),
            final(self).max_steps() == old(self).max_steps(),
            match r {
                Ok(()) => {
                    &&& chunk@.len() <= CODE_SIZE
                    &&& final(self).machine() == Machine::initial()
                    &&& final(self).code_spec() == load(chunk@)
                    &&& final(self).reads() == 0
                    &&& final(self).written() == Seq::<Num>::empty()
                },
                Err(e) => {
                    &&& chunk@.len() > CODE_SIZE
                    &&& e.is(ErrorKind::CodeTooLarge, Seq::empty())
                    &&& final(self).machine() == old(self).machine()
                    &&& final(self).code_spec() == old(self).code_spec()
                    &&& final(self).reads() == old(self).reads()
                    &&& final(self).written() == old(self).written()
                },
            },
    {
        let instrs = chunk.code();
        if instrs.len() > CODE_SIZE {
            return Err(Error::new(ErrorKind::CodeTooLarge));
        }
        // Initialise the machine to execute the top level program.
        self.top = 0;
        self.base = 1;
        self.pc = 0;
        self.stack = filled(STACK_SIZE, 0i32);
        self.reads = 0;
        self.output = Vec::new();
        let mut code = filled(CODE_SIZE, Instr { opcode: OpCode::NoOp, l: 0, a: 0 });
        let mut idx: usize = 0;
        while idx < instrs.len()
            invariant
                idx <= instrs@.len() <= CODE_SIZE,
                code@.len() == CODE_SIZE,
                forall|i: int| 0 <= i < idx ==> code@[i] == instrs@[i],
                forall|i: int| idx <= i < CODE_SIZE ==> code@[i] == Instr::noop(),
            decreases instrs@.len() - idx,
        {
            code.set(idx, instrs[idx]);
            idx = idx + 1;
        }
        assert(code@ =~= load(chunk@));
        self.code = code;
        Ok(())
    }

    /// Whether the next instruction obtains a value from the host.
    pub fn wants_input(&self) -> (b: bool)
        requires
            self.wf(),
        ensures
            b == (self.code_spec()[self.machine().pc].opcode == OpCode::Read),
    {
        match self.code[self.pc].opcode {
            OpCode::Read => true,
            _ => false,
        }
    }

    /// Find stack base `level` levels down.
    fn find_base(&self, level: u8) -> (r: Option<usize>)
        requires
            self.wf(),
        ensures
            match self.machine().find_base(self.machine().base, level as nat) {
                Some(b) => r == Some(b as usize) && 0 <= b < STACK_SIZE,
                None => r is None,
            },
    {
        let (mut base, mut l) = (self.base, level);
        while l > 0
            invariant
                self.wf(),
                base < STACK_SIZE,
                self.machine().find_base(base as int, l as nat) == self.machine().find_base(
                    self.machine().base,
                    level as nat,
                ),
            decreases l,
        {
            let link = self.stack[base];
            if link < 0 || link >= STACK_SIZE as i32 {
                return None;
            }
            base = link as usize;
            l -= 1;
        }
        Some(base)
    }

    /// Whether `after` is this machine after the instruction `instr`, with
    /// `r` telling whether it could be carried out: a fault leaves the
    /// machine as it was. Code, input, and what was read and written stay.
    pub closed spec fn carried_out(
        &self,
        after: &Vm,
        instr: Instr,
        input: Option<Num>,
        r: Result<()>,
    ) -> bool {
        &&& after.wf()
        &&& after.code@ == self.code@
        &&& after.config == self.config
        &&& after.reads == self.reads
        &&& after.output == self.output
        &&& match self.machine().exec(instr, input) {
            Ok(m) => r is Ok && after.machine() == m,
            Err(kind) => r matches Err(e) && e.is(kind, Seq::empty()) && after.machine()
                == self.machine(),
        }
    }

    /// Puts `v` on top of the stack and continues at `pc`.
    fn push(&mut self, pc: usize, v: i32) -> (r: Result<()>)
        requires
            old(self).wf(),
            pc < CODE_SIZE,
        ensures
            final(self).wf(),
            final(self).code@ == old(self).code@,
            final(self).config == old(self).config,
            final(self).reads == old(self).reads,
            final(self).output == old(self).output,
            match old(self).machine().push(pc as int, v) {
                Ok(after) => r is Ok && final(self).machine() == after,
                Err(kind) => r matches Err(e) && e.is(kind, Seq::empty()) && final(self).machine()
                    == old(self).machine(),
            },
    {
        if self.top + 1 >= STACK_SIZE {
            return Err(Error::new(ErrorKind::StackOverflow));
        }
        self.top = self.top + 1;
        self.stack.set(self.top, v);
        self.pc = pc;
        Ok(())
    }

    /// The address after the one that was fetched: the program counter
    /// wraps at the end of the code space.
    fn next_pc(&self) -> (next: usize)
        requires
            self.wf(),
        ensures
            next == (self.machine().pc + 1) % (CODE_SIZE as int),
            next < CODE_SIZE,
    {
        let advanced: u32 = self.pc as u32 + 1;
        let next: u32 = advanced & (CODE_SIZE as u32 - 1);
        assert(advanced & 1023 == advanced % 1024) by (bit_vector);
        next as usize
    }

    /// Pops the frame, and restores the program counter and the base.
    fn op_return(&mut self, Ghost(instr): Ghost<Instr>, Ghost(input): Ghost<Option<Num>>) -> (r:
        Result<()>)
        requires
            old(self).wf(),
            instr.opcode == OpCode::Return,
        ensures
            old(self).carried_out(final(self), instr, input, r),
    {
        if self.base == 0 {
            return Err(Error::new(ErrorKind::StackUnderflow));
        }
        if self.base + 2 >= STACK_SIZE {
            return Err(Error::new(ErrorKind::StackOverflow));
        }
        let ra = self.stack[self.base + 2];
        let dl = self.stack[self.base + 1];
        if ra < 0 || ra >= CODE_SIZE as i32 {
            return Err(Error::new(ErrorKind::InvalidJump));
        }
        if dl < 0 || dl >= STACK_SIZE as i32 {
            return Err(Error::new(ErrorKind::InvalidFrame));
        }
        self.top = self.base - 1;
        self.pc = ra as usize;
        self.base = dl as usize;
        Ok(())
    }

    /// Arithmetic and comparison on the top of the stack.
    fn op_math(
        &mut self,
        m: Math,
        Ghost(instr): Ghost<Instr>,
        Ghost(input): Ghost<Option<Num>>,
    ) -> (r: Result<()>)
        requires
            old(self).wf(),
            instr.opcode == OpCode::Math(m),
        ensures
            old(self).carried_out(final(self), instr, input, r),
    {
        let next = self.next_pc();
        match m {
            Math::Neg | Math::Odd => {
                let x = self.stack[self.top];
                self.stack.set(self.top, apply1(m, x));
                self.pc = next;
            },
            _ => {
                if self.top == 0 {
                    return Err(Error::new(ErrorKind::StackUnderflow));
                }
                let y = self.stack[self.top];
                let x = self.stack[self.top - 1];
                match m {
                    Math::Div => {
                        if y == 0 {
                            return Err(Error::new(ErrorKind::DivisionByZero));
                        }
                    },
                    _ => {},
                }
                self.top = self.top - 1;
                self.stack.set(self.top, apply2(m, x, y));
                self.pc = next;
            },
        }
        Ok(())
    }

    /// Pushes the value of the variable at offset `a` of the frame `l` levels down.
    fn op_load(
        &mut self,
        l: u8,
        a: u16,
        Ghost(instr): Ghost<Instr>,
        Ghost(input): Ghost<Option<Num>>,
    ) -> (r: Result<()>)
        requires
            old(self).wf(),
            instr == (Instr { opcode: OpCode::Load, l, a }),
        ensures
            old(self).carried_out(final(self), instr, input, r),
    {
        let next = self.next_pc();
        let b = match self.find_base(l) {
            Some(b) => b,
            None => {
                return Err(Error::new(ErrorKind::InvalidFrame));
            },
        };
        if b + a as usize >= STACK_SIZE {
            return Err(Error::new(ErrorKind::StackOverflow));
        }
        let v = self.stack[b + a as usize];
        self.push(next, v)
    }

    /// Pops the top of the stack into the variable at offset `a` of the frame `l` levels down.
    fn op_store(
        &mut self,
        l: u8,
        a: u16,
        Ghost(instr): Ghost<Instr>,
        Ghost(input): Ghost<Option<Num>>,
    ) -> (r: Result<()>)
        requires
            old(self).wf(),
            instr == (Instr { opcode: OpCode::Store, l, a }),
        ensures
            old(self).carried_out(final(self), instr, input, r),
    {
        let next = self.next_pc();
        let b = match self.find_base(l) {
            Some(b) => b,
            None => {
                return Err(Error::new(ErrorKind::InvalidFrame));
            },
        };
        if b + a as usize >= STACK_SIZE {
            return Err(Error::new(ErrorKind::StackOverflow));
        }
        if self.top == 0 {
            return Err(Error::new(ErrorKind::StackUnderflow));
        }
        let v = self.stack[self.top];
        self.stack.set(b + a as usize, v);
        self.top = self.top - 1;
        self.pc = next;
        Ok(())
    }

    /// Writes a new block mark above the top of the stack, makes it the
    /// current frame, and continues at `a`.
    fn op_call(
        &mut self,
        l: u8,
        a: u16,
        Ghost(instr): Ghost<Instr>,
        Ghost(input): Ghost<Option<Num>>,
    ) -> (r: Result<()>)
        requires
            old(self).wf(),
            instr == (Instr { opcode: OpCode::Call, l, a }),
        ensures
            old(self).carried_out(final(self), instr, input, r),
    {
        let next = self.next_pc();
        let b = match self.find_base(l) {
            Some(b) => b,
            None => {
                return Err(Error::new(ErrorKind::InvalidFrame));
            },
        };
        if self.top + 3 >= STACK_SIZE {
            return Err(Error::new(ErrorKind::StackOverflow));
        }
        if a as usize >= CODE_SIZE {
            return Err(Error::new(ErrorKind::InvalidJump));
        }
        // Generate new block mark
        self.stack.set(self.top + 1, b as i32);
        self.stack.set(self.top + 2, self.base as i32);
        self.stack.set(self.top + 3, next as i32);
        self.base = self.top + 1;
        self.pc = a as usize;
        Ok(())
    }

    /// Pops the top of the stack, and continues at `a` if it was zero.
    fn op_jump_if_zero(
        &mut self,
        a: u16,
        Ghost(instr): Ghost<Instr>,
        Ghost(input): Ghost<Option<Num>>,
    ) -> (r: Result<()>)
        requires
            old(self).wf(),
            instr.opcode == OpCode::JumpIfZero,
            instr.a == a,
        ensures
            old(self).carried_out(final(self), instr, input, r),
    {
        let next = self.next_pc();
        if self.top == 0 {
            return Err(Error::new(ErrorKind::StackUnderflow));
        }
        if self.stack[self.top] != 0 {
            self.pc = next;
        } else {
            if a as usize >= CODE_SIZE {
                return Err(Error::new(ErrorKind::InvalidJump));
            }
            self.pc = a as usize;
        }
        self.top = self.top - 1;
        Ok(())
    }

    /// What is left of a cycle after the fetch: the instruction is carried out.
    fn dispatch(&mut self, instr: Instr, input: Option<Num>) -> (r: Result<()>)
        requires
            old(self).wf(),
        ensures
            old(self).carried_out(final(self), instr, input, r),
    {
        let Instr { opcode, l, a } = instr;
        let next = self.next_pc();
        match opcode {
            OpCode::NoOp => {
                // Only pc is increased
                self.pc = next;
                Ok(())
            },
            OpCode::Lit => self.push(next, a as i32),
            OpCode::Return => self.op_return(Ghost(instr), Ghost(input)),
            OpCode::Math(m) => self.op_math(m, Ghost(instr), Ghost(input)),
            OpCode::Load => self.op_load(l, a, Ghost(instr), Ghost(input)),
            OpCode::Store => self.op_store(l, a, Ghost(instr), Ghost(input)),
            OpCode::Call => self.op_call(l, a, Ghost(instr), Ghost(input)),
            OpCode::IncTop => {
                if self.top + a as usize >= STACK_SIZE {
                    return Err(Error::new(ErrorKind::StackOverflow));
                }
                self.top = self.top + a as usize;
                self.pc = next;
                Ok(())
            },
            OpCode::Jump => {
                if a as usize >= CODE_SIZE {
                    return Err(Error::new(ErrorKind::InvalidJump));
                }
                self.pc = a as usize;
                Ok(())
            },
            OpCode::JumpIfZero => self.op_jump_if_zero(a, Ghost(instr), Ghost(input)),
            OpCode::Write => {
                if self.top == 0 {
                    return Err(Error::new(ErrorKind::StackUnderflow));
                }
                self.top = self.top - 1;
                self.pc = next;
                Ok(())
            },
            OpCode::Read => {
                let v = match input {
                    Some(v) => v,
                    None => 0,
                };
                self.push(next, v)
            },
        }
    }

    /// One cycle of the machine: fetch, advance, dispatch. `input` is what
    /// a read obtains from the host; no other instruction looks at it.
    /// After a fault the machine is as it was before.
    pub fn step(&mut self, input: Option<Num>) -> (r: Result<Tick>)
        requires
            old(self).wf(),
        ensures
            final(self).wf(),
            final(self).code_spec() == old(self).code_spec(),
            final(self).input() == old(self).input(),
            final(self).max_steps() == old(self).max_steps(),
            final(self).reads() == old(self).reads(),
            final(self).written() == old(self).written(),
            match old(self).machine().step(old(self).code_spec(), input) {
                Ok((after, tick)) => r == Ok::<Tick, Error>(tick) && final(self).machine()
                    == after,
                Err(kind) => r matches Err(e) && e.is(kind, Seq::empty()) && final(self).machine()
                    == old(self).machine(),
            },
    {
        let instr = self.code[self.pc];
        let wrote: Option<Num> = match instr.opcode {
            OpCode::Write => Some(self.stack[self.top]),
            _ => None,
        };
        let read: bool = match instr.opcode {
            OpCode::Read => true,
            _ => false,
        };
        self.dispatch(instr, input)?;
        // Machine halts if it jumps to bytecode zero.
        Ok(Tick { wrote, read, halted: self.pc == 0 })
    }

    /// Executes `chunk` from its start until the machine halts, faults, or
    /// has taken the steps it is allowed. Reads are served from the input of
    /// the configuration; what the program writes is kept for `output`.
    /// The chunk, the input and the steps decide the run: the same of them
    /// give the same output.
    pub fn eval(&mut self, chunk: &Chunk) -> (r: Result<()>)
        requires
            old(self).wf(),
        ensures
            final(self).wf(),
            final(self).input() == old(self).input(),
            final(self).max_steps() == old(self).max_steps(),
            chunk@.len() > CODE_SIZE ==> (r matches Err(e) && e.is(
                ErrorKind::CodeTooLarge,
                Seq::empty(),
            )),
            chunk@.len() <= CODE_SIZE ==> {
                let (end, ending) = Run::initial().run(
                    load(chunk@),
                    old(self).input(),
                    old(self).max_steps(),
                );
                &&& final(self).code_spec() == load(chunk@)
                &&& final(self).run_state() == end
                &&& match ending {
                    Ending::Halted => r is Ok,
                    Ending::Fault(kind) => r matches Err(e) && e.is(kind, Seq::empty()),
                    Ending::OutOfSteps => r matches Err(e) && e.is(
                        ErrorKind::StepLimit,
                        Seq::empty(),
                    ),
                }
            },
    {
        self.load(chunk)?;
        run_interpreter(self)
    }

    /// The values that the program has written, in order.
    pub fn output(&self) -> (out: &Vec<Num>)
        ensures
            out@ == self.written(),
    {
        &self.output
    }

    /// The program counter.
    pub fn pc(&self) -> (pc: usize)
        ensures
            pc == self.machine().pc,
    {
        self.pc
    }

    /// The base of the current frame.
    pub fn base(&self) -> (base: usize)
        ensures
            base == self.machine().base,
    {
        self.base
    }

    /// The index of the topmost value on the stack.
    pub fn top(&self) -> (top: usize)
        ensures
            top == self.machine().top,
    {
        self.top
    }
}

impl Default for Vm {
    fn default() -> (vm: Self)
        ensures
            vm.wf(),
            vm.machine() == Machine::initial(),
            vm.code_spec() == load(Seq::empty()),
            vm.input() == Seq::<Num>::empty(),
            vm.max_steps() == u64::MAX,
            vm.reads() == 0,
            vm.written() == Seq::<Num>::empty(),
    {
        Self::new()
    }
}

/// Runs the machine from where it stands until it halts, faults, or has
/// taken the steps it is allowed. Reads are served from the input of the
/// configuration, and zero when it is used up.
pub fn run_interpreter(vm: &mut Vm) -> (r: Result<()>)
    requires
        old(vm).wf(),
    ensures
        final(vm).wf(),
        final(vm).code_spec() == old(vm).code_spec(),
        final(vm).input() == old(vm).input(),
        final(vm).max_steps() == old(vm).max_steps(),
        ({
            let (end, ending) = old(vm).run_state().run(
                old(vm).code_spec(),
                old(vm).input(),
                old(vm).max_steps(),
            );
            &&& final(vm).run_state() == end
            &&& match ending {
                Ending::Halted => r is Ok,
                Ending::Fault(kind) => r matches Err(e) && e.is(kind, Seq::empty()),
                Ending::OutOfSteps => r matches Err(e) && e.is(ErrorKind::StepLimit, Seq::empty()),
            }
        }),
{
    let mut steps: u64 = vm.config.max_steps;
    let ghost code = vm.code_spec();
    let ghost input = vm.input();
    let ghost goal = vm.run_state().run(code, input, vm.max_steps());
    while steps > 0
        invariant
            vm.wf(),
            vm.code_spec() == code,
            vm.input() == input,
            code == old(vm).code_spec(),
            input == old(vm).input(),
            goal == old(vm).run_state().run(code, input, old(vm).max_steps()),
            vm.max_steps() == old(vm).max_steps(),
            vm.run_state().run(code, input, steps as nat) == goal,
        decreases steps,
    {
        let feed: Option<Num> = if vm.reads < vm.config.input.len() {
            Some(vm.config.input[vm.reads])
        } else {
            None
        };
        let ghost before = vm.run_state();
        assert(feed == before.next_input(input));
        let tick = vm.step(feed)?;
        if tick.read && vm.reads < vm.config.input.len() {
            vm.reads = vm.reads + 1;
        }
        match tick.wrote {
            Some(v) => {
                vm.output.push(v);
            },
            None => {},
        }
        assert(vm.run_state() == before.advance(input, vm.machine(), tick));
        if tick.halted {
            return Ok(());
        }
        steps = steps - 1;
    }
    Err(Error::new(ErrorKind::StepLimit))
}

} // verus!
