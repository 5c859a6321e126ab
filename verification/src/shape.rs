//! The shape of well-formed code: where each instruction stands in the
//! block structure of the program, and how deep the stack is there.
use vstd::prelude::*;
use crate::bytecode::{Instr, OpCode};
use crate::limits::DATA_OFFSET;

verus! {

/// Where an instruction stands. A scope is the code of one block, and is
/// named by the address of the jump at its start.
pub struct Site {
    /// The scope that the instruction belongs to.
    pub scope: int,
    /// The scope of the enclosing block, or -1 for the outermost block.
    pub parent: int,
    /// The lexical level of the scope.
    pub level: int,
    /// The size of the frame of the scope: the block mark and the variables.
    pub frame: int,
    /// How many values lie on the frame before the instruction is carried
    /// out, or -1 where the frame is not allocated yet.
    pub depth: int,
}

impl Site {
    /// The same place in the block structure, at another depth.
    pub open spec fn at(self, depth: int) -> Site {
        Site { depth, ..self }
    }

    /// Whether the frame is allocated when the instruction is reached.
    pub open spec fn allocated(self) -> bool {
        self.depth >= 0
    }
}

/// The scope that is `l` blocks out from `scope`.
pub open spec fn ancestor(g: Seq<Site>, scope: int, l: nat) -> int
    decreases l,
{
    if l == 0 {
        scope
    } else if 0 <= scope < g.len() {
        ancestor(g, g[scope].parent, (l - 1) as nat)
    } else {
        -1
    }
}

/// Whether the site at `pc` fits into the block structure: its scope
/// starts with a site that says the same of it, the outermost scope starts
/// the code, and every other scope lies one level under its parent.
pub open spec fn site_wf(g: Seq<Site>, pc: int) -> bool {
    let s = g[pc];
    &&& 0 <= s.scope < g.len()
    &&& g[s.scope] == s.at(-1)
    &&& s.frame >= DATA_OFFSET
    &&& s.depth >= -1
    &&& if s.level == 0 {
        s.scope == 0 && s.parent == -1
    } else {
        &&& s.level > 0
        &&& s.scope > 0
        &&& 0 <= s.parent < g.len()
        &&& g[s.parent].scope == s.parent
        &&& g[s.parent].level == s.level - 1
    }
}

/// Whether the variable at offset `a` of the frame `l` levels out exists.
pub open spec fn var_ok(g: Seq<Site>, s: Site, l: int, a: int) -> bool {
    let owner = ancestor(g, s.scope, l as nat);
    &&& 0 <= l <= s.level
    &&& 0 <= owner < g.len()
    &&& DATA_OFFSET <= a < g[owner].frame
}

/// Whether the next instruction stands in the same scope, `by` deeper.
pub open spec fn falls_through(g: Seq<Site>, pc: int, by: int) -> bool {
    pc + 1 < g.len() && g[pc + 1] == g[pc].at(g[pc].depth + by)
}

/// Whether the instruction `instr` at the address `pc` keeps to the shape
/// `g`: the stack is deep enough for it, what it reads and writes exists,
/// and where it goes on the stack is as deep as it leaves it.
pub open spec fn ok_at(instr: Instr, g: Seq<Site>, pc: int) -> bool {
    let s = g[pc];
    let a = instr.a as int;
    match instr.opcode {
        OpCode::NoOp => false,
        OpCode::Lit | OpCode::Read => s.allocated() && falls_through(g, pc, 1),
        OpCode::Load => s.allocated() && falls_through(g, pc, 1) && var_ok(g, s, instr.l as int, a),
        OpCode::Store => s.depth >= 1 && falls_through(g, pc, -1) && var_ok(
            g,
            s,
            instr.l as int,
            a,
        ),
        OpCode::Math(op) => if op.is_unary() {
            s.depth >= 1 && falls_through(g, pc, 0)
        } else {
            s.depth >= 2 && falls_through(g, pc, -1)
        },
        OpCode::Write => s.depth >= 1 && falls_through(g, pc, -1),
        OpCode::JumpIfZero => {
            &&& s.depth >= 1
            &&& falls_through(g, pc, -1)
            &&& 1 <= a < g.len()
            &&& g[a] == s.at(s.depth - 1)
        },
        OpCode::Jump => 1 <= a < g.len() && g[a] == s,
        OpCode::IncTop => !s.allocated() && a == s.frame && falls_through(g, pc, 1),
        OpCode::Call => {
            let owner = ancestor(g, s.scope, instr.l as nat);
            &&& s.allocated()
            &&& falls_through(g, pc, 0)
            &&& 1 <= a < g.len()
            &&& g[a].scope == a
            &&& g[a].depth == -1
            &&& g[a].level >= 1
            &&& instr.l <= s.level
            &&& g[a].parent == owner
        },
        OpCode::Return => s.allocated(),
    }
}

/// Whether `code` keeps to the shape `g` everywhere.
pub open spec fn shaped(code: Seq<Instr>, g: Seq<Site>) -> bool {
    &&& g.len() == code.len()
    &&& code.len() > 0
    &&& g[0].scope == 0
    &&& g[0].depth == -1
    &&& forall|pc: int| 0 <= pc < g.len() ==> site_wf(g, pc)
    &&& forall|pc: int| 0 <= pc < g.len() ==> ok_at(#[trigger] code[pc], g, pc)
}

} // verus!
