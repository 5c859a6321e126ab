//! The discipline of frames: what the machine keeps while it runs code
//! that keeps to a shape.
use vstd::prelude::*;
use crate::bytecode::{Instr, OpCode};
use crate::errors::ErrorKind;
use crate::limits::{CODE_SIZE, DATA_OFFSET, STACK_SIZE};
use crate::machine::{lemma_exec_wf, load, Ending, Machine, Run};
use crate::shape::{ancestor, ok_at, shaped, site_wf, Site};

verus! {

/// One activation of a block: a frame on the stack.
pub struct Frame {
    /// Where the frame starts: the address of its block mark.
    pub base: int,
    /// The scope whose code runs in the frame.
    pub scope: int,
    /// Which of the frames below it is the frame of the enclosing block.
    pub link: int,
}

/// Whether the block mark of the frame `i` is as the call left it: the
/// static link is the base of the frame of the enclosing block, the
/// dynamic link is the base of the caller's frame, and the return address
/// is a place in the caller's code where the stack is as deep as it was
/// at the call.
pub open spec fn mark_ok(g: Seq<Site>, stack: Seq<i32>, frames: Seq<Frame>, i: int) -> bool {
    let f = frames[i];
    let caller = frames[i - 1];
    let ret = stack[f.base + 2] as int;
    &&& 0 <= f.scope < g.len()
    &&& g[f.scope].scope == f.scope
    &&& g[f.scope].level >= 1
    &&& 0 <= f.link < i
    &&& frames[f.link].scope == g[f.scope].parent
    &&& 1 <= f.base
    &&& f.base + 2 < STACK_SIZE
    &&& stack[f.base] == frames[f.link].base
    &&& stack[f.base + 1] == caller.base
    &&& 1 <= ret < g.len()
    &&& g[ret].scope == caller.scope
    &&& g[ret].depth >= 0
    &&& f.base == caller.base + g[ret].frame + g[ret].depth
}

/// Whether the frames are those of calls that have not returned, the
/// outermost first, and their block marks are intact.
pub open spec fn frames_ok(g: Seq<Site>, stack: Seq<i32>, frames: Seq<Frame>) -> bool {
    &&& frames.len() >= 1
    &&& frames[0] == Frame { base: 1, scope: 0, link: -1 }
    &&& stack.len() == STACK_SIZE
    &&& stack[1] == 0
    &&& stack[2] == 0
    &&& stack[3] == 0
    &&& forall|i: int| 1 <= i < frames.len() ==> mark_ok(g, stack, frames, i)
}

/// What holds of the machine between two instructions of code that keeps
/// to the shape `g`: the program counter stands in the scope of the
/// current frame, the base is that of the current frame, and the top of
/// the stack is as far above it as the site says.
pub open spec fn disciplined(g: Seq<Site>, m: Machine, frames: Seq<Frame>) -> bool {
    let s = g[m.pc];
    &&& m.wf()
    &&& frames_ok(g, m.stack, frames)
    &&& 0 <= m.pc < g.len()
    &&& frames.last().base == m.base
    &&& frames.last().scope == s.scope
    &&& m.top == m.base + (if s.depth < 0 {
        -1
    } else {
        s.frame - 1 + s.depth
    })
}

/// Frames lie on the stack one above the other, and do not overlap.
proof fn lemma_frames_apart(g: Seq<Site>, stack: Seq<i32>, frames: Seq<Frame>, i: int, j: int)
    requires
        forall|pc: int| 0 <= pc < g.len() ==> site_wf(g, pc),
        frames_ok(g, stack, frames),
        0 <= i < j < frames.len(),
    ensures
        frames[i].base >= 1,
        0 <= frames[i].scope < g.len(),
        g[frames[i].scope].scope == frames[i].scope,
        frames[j].base >= frames[i].base + g[frames[i].scope].frame,
    decreases j - i,
{
    assert(mark_ok(g, stack, frames, j));
    let ret = stack[frames[j].base + 2] as int;
    assert(site_wf(g, ret));
    assert(site_wf(g, 0));
    if i > 0 {
        assert(mark_ok(g, stack, frames, i));
    }
    if i < j - 1 {
        lemma_frames_apart(g, stack, frames, i, j - 1);
        assert(site_wf(g, frames[j - 1].scope));
    }
}

/// What holds of each frame by itself.
proof fn lemma_frame_facts(g: Seq<Site>, stack: Seq<i32>, frames: Seq<Frame>, i: int)
    requires
        forall|pc: int| 0 <= pc < g.len() ==> site_wf(g, pc),
        g.len() > 0,
        g[0].scope == 0,
        frames_ok(g, stack, frames),
        0 <= i < frames.len(),
    ensures
        1 <= frames[i].base,
        frames[i].base + 2 < STACK_SIZE || i == 0,
        0 <= frames[i].scope < g.len(),
        g[frames[i].scope].scope == frames[i].scope,
        i == 0 <==> g[frames[i].scope].level == 0,
{
    assert(site_wf(g, 0));
    if i > 0 {
        assert(mark_ok(g, stack, frames, i));
        lemma_frames_apart(g, stack, frames, 0, i);
    }
}

/// Whether the slot `x` of the stack belongs to no block mark.
pub open spec fn off_marks(frames: Seq<Frame>, x: int) -> bool {
    forall|i: int| 0 <= i < frames.len() ==> !(frames[i].base <= x <= #[trigger] frames[i].base + 2)
}

/// A store that touches no block mark keeps the frames.
proof fn lemma_update_keeps_frames(
    g: Seq<Site>,
    stack: Seq<i32>,
    frames: Seq<Frame>,
    x: int,
    v: i32,
)
    requires
        frames_ok(g, stack, frames),
        0 <= x < stack.len(),
        off_marks(frames, x),
    ensures
        frames_ok(g, stack.update(x, v), frames),
{
    let after = stack.update(x, v);
    assert(!(frames[0].base <= x <= frames[0].base + 2));
    assert forall|i: int| 1 <= i < frames.len() implies mark_ok(g, after, frames, i) by {
        assert(mark_ok(g, stack, frames, i));
        assert(!(frames[i].base <= x <= frames[i].base + 2));
    }
}

/// What lies above the block mark of the current frame belongs to no block mark.
proof fn lemma_above_marks(g: Seq<Site>, stack: Seq<i32>, frames: Seq<Frame>, x: int)
    requires
        forall|pc: int| 0 <= pc < g.len() ==> site_wf(g, pc),
        frames_ok(g, stack, frames),
        x > frames.last().base + 2,
    ensures
        off_marks(frames, x),
{
    let k = frames.len() - 1;
    assert forall|i: int| 0 <= i < frames.len() implies !(frames[i].base <= x
        <= #[trigger] frames[i].base + 2) by {
        if i < k {
            lemma_frames_apart(g, stack, frames, i, k);
            assert(site_wf(g, frames[i].scope));
        }
    }
}

/// A variable of a frame belongs to no block mark.
proof fn lemma_variable_off_marks(
    g: Seq<Site>,
    stack: Seq<i32>,
    frames: Seq<Frame>,
    j: int,
    a: int,
)
    requires
        forall|pc: int| 0 <= pc < g.len() ==> site_wf(g, pc),
        frames_ok(g, stack, frames),
        0 <= j < frames.len(),
        0 <= frames[j].scope < g.len(),
        DATA_OFFSET <= a < g[frames[j].scope].frame,
    ensures
        off_marks(frames, frames[j].base + a),
{
    let x = frames[j].base + a;
    assert forall|i: int| 0 <= i < frames.len() implies !(frames[i].base <= x
        <= #[trigger] frames[i].base + 2) by {
        if i < j {
            lemma_frames_apart(g, stack, frames, i, j);
            assert(site_wf(g, frames[i].scope));
        } else if j < i {
            lemma_frames_apart(g, stack, frames, j, i);
        }
    }
}

/// The frame that is `l` static links away from the frame `k`.
pub open spec fn linked(frames: Seq<Frame>, k: int, l: nat) -> int
    decreases l,
{
    if l == 0 {
        k
    } else if 0 <= k < frames.len() {
        linked(frames, frames[k].link, (l - 1) as nat)
    } else {
        -1
    }
}

/// Following the static links on the stack leads to the frame of the
/// block that lies as many levels out in the program.
proof fn lemma_find_base(g: Seq<Site>, m: Machine, frames: Seq<Frame>, k: int, l: nat)
    requires
        forall|pc: int| 0 <= pc < g.len() ==> site_wf(g, pc),
        g.len() > 0,
        g[0].scope == 0,
        frames_ok(g, m.stack, frames),
        0 <= k < frames.len(),
        l <= g[frames[k].scope].level,
    ensures
        0 <= linked(frames, k, l) <= k,
        m.find_base(frames[k].base, l) == Some(frames[linked(frames, k, l)].base),
        frames[linked(frames, k, l)].scope == ancestor(g, frames[k].scope, l),
    decreases l,
{
    lemma_frame_facts(g, m.stack, frames, k);
    if l > 0 {
        assert(mark_ok(g, m.stack, frames, k));
        let up = frames[k].link;
        lemma_frame_facts(g, m.stack, frames, up);
        assert(site_wf(g, frames[k].scope));
        lemma_find_base(g, m, frames, up, (l - 1) as nat);
    }
}

/// Whether the machine `after`, which an instruction left, either has
/// halted with an empty stack or is disciplined with the frames `next`.
pub open spec fn kept(g: Seq<Site>, after: Machine, next: Seq<Frame>) -> bool {
    if after.pc == 0 {
        after.top == 0
    } else {
        disciplined(g, after, next)
    }
}

/// A value that is pushed above the current frame keeps the discipline.
proof fn lemma_push_kept(g: Seq<Site>, m: Machine, frames: Seq<Frame>, v: i32)
    requires
        forall|pc: int| 0 <= pc < g.len() ==> site_wf(g, pc),
        g.len() <= CODE_SIZE,
        disciplined(g, m, frames),
        g[m.pc].depth >= 0,
        m.pc + 1 < g.len(),
        g[m.pc + 1] == g[m.pc].at(g[m.pc].depth + 1),
    ensures
        m.push(m.pc + 1, v) matches Ok(after) ==> kept(g, after, frames),
{
    assert(site_wf(g, m.pc));
    if let Ok(after) = m.push(m.pc + 1, v) {
        lemma_above_marks(g, m.stack, frames, m.top + 1);
        lemma_update_keeps_frames(g, m.stack, frames, m.top + 1, v);
    }
}

/// Carrying out an instruction that stays in its frame keeps the discipline.
proof fn lemma_local_kept(
    g: Seq<Site>,
    m: Machine,
    frames: Seq<Frame>,
    instr: Instr,
    input: Option<i32>,
)
    requires
        forall|pc: int| 0 <= pc < g.len() ==> site_wf(g, pc),
        g.len() > 0,
        g[0].scope == 0,
        g.len() <= CODE_SIZE,
        disciplined(g, m, frames),
        ok_at(instr, g, m.pc),
        instr.opcode != OpCode::Call,
        instr.opcode != OpCode::Return,
    ensures
        m.exec(instr, input) matches Ok(after) ==> kept(g, after, frames),
{
    let s = g[m.pc];
    let k = frames.len() - 1;
    let a = instr.a as int;
    assert(site_wf(g, m.pc));
    lemma_exec_wf(m, instr, input);
    if let Ok(after) = m.exec(instr, input) {
        match instr.opcode {
            OpCode::Lit => {
                lemma_push_kept(g, m, frames, instr.a as i32);
            },
            OpCode::Read => {
                lemma_push_kept(
                    g,
                    m,
                    frames,
                    match input {
                        Some(v) => v,
                        None => 0,
                    },
                );
            },
            OpCode::Load => {
                lemma_find_base(g, m, frames, k, instr.l as nat);
                let j = linked(frames, k, instr.l as nat);
                lemma_frame_facts(g, m.stack, frames, j);
                assert(m.find_base(m.base, instr.l as nat) == Some(frames[j].base));
                lemma_push_kept(g, m, frames, m.stack[frames[j].base + a]);
            },
            OpCode::Store => {
                lemma_find_base(g, m, frames, k, instr.l as nat);
                let j = linked(frames, k, instr.l as nat);
                lemma_frame_facts(g, m.stack, frames, j);
                assert(m.find_base(m.base, instr.l as nat) == Some(frames[j].base));
                lemma_variable_off_marks(g, m.stack, frames, j, a);
                lemma_update_keeps_frames(g, m.stack, frames, frames[j].base + a, m.stack[m.top]);
            },
            OpCode::Math(op) => {
                if op.is_unary() {
                    lemma_above_marks(g, m.stack, frames, m.top);
                    lemma_update_keeps_frames(
                        g,
                        m.stack,
                        frames,
                        m.top,
                        op.apply1(m.stack[m.top]),
                    );
                } else {
                    lemma_above_marks(g, m.stack, frames, m.top - 1);
                    lemma_update_keeps_frames(
                        g,
                        m.stack,
                        frames,
                        m.top - 1,
                        op.apply2(m.stack[m.top - 1], m.stack[m.top]),
                    );
                }
            },
            _ => {},
        }
    }
}

/// A call puts a frame with an intact block mark on the stack.
proof fn lemma_call_kept(
    g: Seq<Site>,
    m: Machine,
    frames: Seq<Frame>,
    instr: Instr,
    input: Option<i32>,
) -> (next: Seq<Frame>)
    requires
        forall|pc: int| 0 <= pc < g.len() ==> site_wf(g, pc),
        g.len() > 0,
        g[0].scope == 0,
        g.len() <= CODE_SIZE,
        disciplined(g, m, frames),
        ok_at(instr, g, m.pc),
        instr.opcode == OpCode::Call,
    ensures
        m.exec(instr, input) matches Ok(after) ==> kept(g, after, next),
{
    let s = g[m.pc];
    let k = frames.len() - 1;
    let a = instr.a as int;
    assert(site_wf(g, m.pc));
    lemma_exec_wf(m, instr, input);
    lemma_find_base(g, m, frames, k, instr.l as nat);
    let j = linked(frames, k, instr.l as nat);
    let entered = Frame { base: m.top + 1, scope: a, link: j };
    let next = frames.push(entered);
    if let Ok(after) = m.exec(instr, input) {
        let b = frames[j].base;
        lemma_frame_facts(g, m.stack, frames, j);
        lemma_frame_facts(g, m.stack, frames, k);
        let s1 = m.stack.update(m.top + 1, b as i32);
        let s2 = s1.update(m.top + 2, m.base as i32);
        let s3 = s2.update(m.top + 3, (m.pc + 1) as i32);
        assert(after.stack == s3);
        lemma_above_marks(g, m.stack, frames, m.top + 1);
        lemma_update_keeps_frames(g, m.stack, frames, m.top + 1, b as i32);
        lemma_above_marks(g, s1, frames, m.top + 2);
        lemma_update_keeps_frames(g, s1, frames, m.top + 2, m.base as i32);
        lemma_above_marks(g, s2, frames, m.top + 3);
        lemma_update_keeps_frames(g, s2, frames, m.top + 3, (m.pc + 1) as i32);
        assert forall|i: int| 1 <= i < next.len() implies mark_ok(g, s3, next, i) by {
            if i < frames.len() {
                assert(mark_ok(g, s3, frames, i));
                assert(next[i] == frames[i]);
                assert(next[i - 1] == frames[i - 1]);
                assert(next[frames[i].link] == frames[frames[i].link]);
            } else {
                assert(next[i] == entered);
                assert(next[i - 1] == frames[k]);
                assert(next[j] == frames[j]);
                assert(site_wf(g, m.pc + 1));
            }
        }
        assert(next[0] == frames[0]);
        assert(frames_ok(g, s3, next));
    }
    next
}

/// A return drops the current frame and goes on in the caller's; the
/// outermost frame returns to address 0, with nothing left on the stack.
proof fn lemma_return_kept(
    g: Seq<Site>,
    m: Machine,
    frames: Seq<Frame>,
    instr: Instr,
    input: Option<i32>,
) -> (next: Seq<Frame>)
    requires
        forall|pc: int| 0 <= pc < g.len() ==> site_wf(g, pc),
        g.len() > 0,
        g[0].scope == 0,
        g.len() <= CODE_SIZE,
        disciplined(g, m, frames),
        ok_at(instr, g, m.pc),
        instr.opcode == OpCode::Return,
    ensures
        m.exec(instr, input) matches Ok(after) ==> kept(g, after, next),
{
    let k = frames.len() - 1;
    let next = frames.drop_last();
    assert(site_wf(g, m.pc));
    lemma_exec_wf(m, instr, input);
    if let Ok(after) = m.exec(instr, input) {
        if k > 0 {
            assert(mark_ok(g, m.stack, frames, k));
            let ret = m.stack[m.base + 2] as int;
            assert(site_wf(g, ret));
            assert forall|i: int| 1 <= i < next.len() implies mark_ok(g, m.stack, next, i) by {
                assert(mark_ok(g, m.stack, frames, i));
                assert(next[i] == frames[i]);
                assert(next[i - 1] == frames[i - 1]);
                assert(next[frames[i].link] == frames[frames[i].link]);
            }
            assert(next[0] == frames[0]);
            assert(next.last() == frames[k - 1]);
        }
    }
    next
}

/// One cycle of the machine on code that keeps to a shape keeps the
/// discipline of frames, or halts the machine with an empty stack.
pub proof fn lemma_step_kept(
    chunk: Seq<Instr>,
    g: Seq<Site>,
    m: Machine,
    frames: Seq<Frame>,
    input: Option<i32>,
) -> (next: Seq<Frame>)
    requires
        shaped(chunk, g),
        chunk.len() <= CODE_SIZE,
        disciplined(g, m, frames),
    ensures
        m.step(load(chunk), input) matches Ok((after, tick)) ==> kept(g, after, next) && tick.halted
            == (after.pc == 0),
{
    let instr = chunk[m.pc];
    assert(load(chunk)[m.pc] == instr);
    assert(ok_at(instr, g, m.pc));
    if instr.opcode == OpCode::Call {
        lemma_call_kept(g, m, frames, instr, input)
    } else if instr.opcode == OpCode::Return {
        lemma_return_kept(g, m, frames, instr, input)
    } else {
        lemma_local_kept(g, m, frames, instr, input);
        frames
    }
}

/// Whether a fault of `kind` is one that code which keeps to a shape can
/// run into: the stack is too small for it, or it divides by zero.
pub open spec fn honest(kind: ErrorKind) -> bool {
    kind == ErrorKind::StackOverflow || kind == ErrorKind::DivisionByZero
}

/// Code that keeps to a shape never reaches below the stack, never
/// follows a link that is none, and never leaves the code.
pub proof fn lemma_step_faults(
    chunk: Seq<Instr>,
    g: Seq<Site>,
    m: Machine,
    frames: Seq<Frame>,
    input: Option<i32>,
)
    requires
        shaped(chunk, g),
        chunk.len() <= CODE_SIZE,
        disciplined(g, m, frames),
    ensures
        m.step(load(chunk), input) matches Err(kind) ==> honest(kind),
{
    let instr = chunk[m.pc];
    let k = frames.len() - 1;
    assert(load(chunk)[m.pc] == instr);
    assert(ok_at(instr, g, m.pc));
    assert(site_wf(g, m.pc));
    lemma_frame_facts(g, m.stack, frames, k);
    match instr.opcode {
        OpCode::Load | OpCode::Store | OpCode::Call => {
            lemma_find_base(g, m, frames, k, instr.l as nat);
        },
        OpCode::Return => {
            if k > 0 {
                assert(mark_ok(g, m.stack, frames, k));
                lemma_frame_facts(g, m.stack, frames, k - 1);
            }
        },
        _ => {},
    }
}

/// The machine at the start of code that keeps to a shape is disciplined,
/// with the frame of the outermost block as its only frame.
pub proof fn lemma_initial_disciplined(chunk: Seq<Instr>, g: Seq<Site>)
    requires
        shaped(chunk, g),
    ensures
        disciplined(g, Machine::initial(), seq![Frame { base: 1, scope: 0, link: -1 }]),
{
    assert(site_wf(g, 0));
}

/// A run of code that keeps to a shape, from a disciplined machine, halts
/// only with an empty stack.
pub proof fn lemma_run_kept(
    chunk: Seq<Instr>,
    g: Seq<Site>,
    r: Run,
    frames: Seq<Frame>,
    input: Seq<i32>,
    steps: nat,
)
    requires
        shaped(chunk, g),
        chunk.len() <= CODE_SIZE,
        disciplined(g, r.machine, frames),
    ensures
        r.run(load(chunk), input, steps).1 == Ending::Halted ==> r.run(
            load(chunk),
            input,
            steps,
        ).0.machine.top == 0,
    decreases steps,
{
    if steps > 0 {
        let next = lemma_step_kept(chunk, g, r.machine, frames, r.next_input(input));
        if let Ok((after, tick)) = r.machine.step(load(chunk), r.next_input(input)) {
            if !tick.halted {
                lemma_run_kept(
                    chunk,
                    g,
                    r.advance(input, after, tick),
                    next,
                    input,
                    (steps - 1) as nat,
                );
            }
        }
    }
}

/// A run of code that keeps to a shape, from a disciplined machine,
/// faults only where the stack is too small or a number is divided by zero.
pub proof fn lemma_run_faults(
    chunk: Seq<Instr>,
    g: Seq<Site>,
    r: Run,
    frames: Seq<Frame>,
    input: Seq<i32>,
    steps: nat,
)
    requires
        shaped(chunk, g),
        chunk.len() <= CODE_SIZE,
        disciplined(g, r.machine, frames),
    ensures
        r.run(load(chunk), input, steps).1 matches Ending::Fault(kind) ==> honest(kind),
    decreases steps,
{
    if steps > 0 {
        lemma_step_faults(chunk, g, r.machine, frames, r.next_input(input));
        let next = lemma_step_kept(chunk, g, r.machine, frames, r.next_input(input));
        if let Ok((after, tick)) = r.machine.step(load(chunk), r.next_input(input)) {
            if !tick.halted {
                lemma_run_faults(
                    chunk,
                    g,
                    r.advance(input, after, tick),
                    next,
                    input,
                    (steps - 1) as nat,
                );
            }
        }
    }
}

} // verus!
