//! What the compiler emits, as a mathematical model.
//!
//! Code is generated in a single pass, in execution order. Every function
//! here takes the code that was emitted so far and gives the code after
//! its construct was compiled, or the first fault that stopped the
//! compiler. Addresses are absolute, so the code so far decides the
//! targets of the jumps and calls that follow.
use vstd::prelude::*;
use crate::ast::{
    BinOp, BlockView, CondOp, CondView, ConstView, ExprView, ProcView, ProgramView, StmtView, UnOp,
};
use crate::bytecode::{Instr, Math, OpCode};
use crate::codegen::{patched, plain};
use crate::errors::ErrorKind;
use crate::limits::{CODE_SIZE, DATA_OFFSET};
use crate::symbols::{resolve, EntryView};
use crate::Num;

verus! {

/// Why the compiler stopped: the kind of the error, and the name it is about.
pub struct Fault {
    pub kind: ErrorKind,
    pub subject: Seq<char>,
}

/// The code after a block was compiled, and the table with its declarations.
pub struct Laid {
    pub code: Seq<Instr>,
    pub table: Seq<EntryView>,
}

pub type Code = Result<Seq<Instr>, Fault>;

pub open spec fn fault(kind: ErrorKind, subject: Seq<char>) -> Code {
    Err(Fault { kind, subject })
}

/// Appends `instr`, while the code space has room for it.
pub open spec fn emit(code: Seq<Instr>, instr: Instr) -> Code {
    if code.len() < CODE_SIZE {
        Ok(code.push(instr))
    } else {
        fault(ErrorKind::CodeTooLarge, Seq::empty())
    }
}

/// The instruction that pushes the literal `n`: its low 16 bits are kept.
pub open spec fn lit(n: Num) -> Instr {
    Instr { opcode: OpCode::Lit, l: 0, a: n as u16 }
}

/// The level delta: how many static links lie between a use at `level`
/// and a declaration at `declared`.
pub open spec fn delta(level: u8, declared: u8) -> u8 {
    (level - declared) as u8
}

pub open spec fn bin_math(op: BinOp) -> Math {
    match op {
        BinOp::Add => Math::Add,
        BinOp::Sub => Math::Sub,
        BinOp::Mul => Math::Mul,
        BinOp::Div => Math::Div,
    }
}

pub open spec fn cond_math(op: CondOp) -> Math {
    match op {
        CondOp::Eq => Math::Eq,
        CondOp::NotEq => Math::NotEq,
        CondOp::Less => Math::Less,
        CondOp::LessEq => Math::LessEq,
        CondOp::Great => Math::Great,
        CondOp::GreatEq => Math::GreatEq,
    }
}

/// An expression leaves its value on top of the stack.
pub open spec fn expr_code(e: ExprView, table: Seq<EntryView>, level: u8, code: Seq<Instr>) -> Code
    decreases e,
{
    match e {
        ExprView::Num(n) => emit(code, lit(n)),
        ExprView::Unary { op, expr } => match expr_code(*expr, table, level, code) {
            Err(f) => Err(f),
            Ok(c) => if op == UnOp::Neg {
                emit(c, plain(OpCode::Math(Math::Neg)))
            } else {
                Ok(c)
            },
        },
        ExprView::Binary { op, lhs, rhs } => match expr_code(*lhs, table, level, code) {
            Err(f) => Err(f),
            Ok(c) => match expr_code(*rhs, table, level, c) {
                Err(f) => Err(f),
                Ok(c) => emit(c, plain(OpCode::Math(bin_math(op)))),
            },
        },
        ExprView::Name(name) => match resolve(table, name) {
            None => fault(ErrorKind::Unresolved, name),
            Some(EntryView::Const { value, .. }) => emit(code, lit(value)),
            Some(EntryView::Var { level: declared, offset, .. }) => emit(
                code,
                Instr { opcode: OpCode::Load, l: delta(level, declared), a: offset },
            ),
            Some(EntryView::Proc { .. }) => fault(ErrorKind::ProcInExpr, name),
        },
        ExprView::Invalid => fault(ErrorKind::ErrorNode, Seq::empty()),
    }
}

/// A condition leaves 1 for true and 0 for false on top of the stack.
pub open spec fn cond_code(
    c: CondView,
    table: Seq<EntryView>,
    level: u8,
    code: Seq<Instr>,
) -> Code {
    match c {
        CondView::Odd(e) => match expr_code(e, table, level, code) {
            Err(f) => Err(f),
            Ok(c) => emit(c, plain(OpCode::Math(Math::Odd))),
        },
        CondView::Bin { op, lhs, rhs } => match expr_code(lhs, table, level, code) {
            Err(f) => Err(f),
            Ok(c) => match expr_code(rhs, table, level, c) {
                Err(f) => Err(f),
                Ok(c) => emit(c, plain(OpCode::Math(cond_math(op)))),
            },
        },
    }
}

/// Pops the top of the stack into the variable `name`.
pub open spec fn store_code(
    name: Seq<char>,
    table: Seq<EntryView>,
    level: u8,
    code: Seq<Instr>,
) -> Code {
    match resolve(table, name) {
        None => fault(ErrorKind::Unresolved, name),
        Some(EntryView::Const { .. }) => fault(ErrorKind::ExpectedVarFoundConst, name),
        Some(EntryView::Var { level: declared, offset, .. }) => emit(
            code,
            Instr { opcode: OpCode::Store, l: delta(level, declared), a: offset },
        ),
        Some(EntryView::Proc { .. }) => fault(ErrorKind::ExpectedVarFoundProc, name),
    }
}

/// Calls the procedure `name`.
pub open spec fn call_code(
    name: Seq<char>,
    table: Seq<EntryView>,
    level: u8,
    code: Seq<Instr>,
) -> Code {
    match resolve(table, name) {
        None => fault(ErrorKind::Unresolved, name),
        Some(EntryView::Const { .. }) => fault(ErrorKind::ExpectedProcFoundConst, name),
        Some(EntryView::Var { .. }) => fault(ErrorKind::ExpectedProcFoundVar, name),
        Some(EntryView::Proc { level: declared, addr, .. }) => emit(
            code,
            Instr { opcode: OpCode::Call, l: delta(level, declared), a: addr },
        ),
    }
}

/// The code after the conditional jump that was reserved at `jump` was
/// given the address of the next instruction as its target.
pub open spec fn close_jump(code: Seq<Instr>, jump: int) -> Seq<Instr> {
    patched(code, jump, code.len() as u16)
}

/// A statement leaves the stack as it found it.
pub open spec fn stmt_code(s: StmtView, table: Seq<EntryView>, level: u8, code: Seq<Instr>) -> Code
    decreases s,
{
    match s {
        StmtView::Assign { lhs, rhs } => match expr_code(rhs, table, level, code) {
            Err(f) => Err(f),
            Ok(c) => store_code(lhs, table, level, c),
        },
        StmtView::Call { name } => call_code(name, table, level, code),
        StmtView::Read { name } => match emit(code, plain(OpCode::Read)) {
            Err(f) => Err(f),
            Ok(c) => store_code(name, table, level, c),
        },
        StmtView::Write { expr } => match expr_code(expr, table, level, code) {
            Err(f) => Err(f),
            Ok(c) => emit(c, plain(OpCode::Write)),
        },
        StmtView::SubBlock { stmts } => stmts_code(stmts, table, level, code),
        StmtView::If { head, body } => match cond_code(head, table, level, code) {
            Err(f) => Err(f),
            Ok(c) => match emit(c, plain(OpCode::JumpIfZero)) {
                Err(f) => Err(f),
                Ok(c2) => match stmt_code(*body, table, level, c2) {
                    Err(f) => Err(f),
                    Ok(c3) => Ok(close_jump(c3, c.len() as int)),
                },
            },
        },
        StmtView::While { head, body } => match cond_code(head, table, level, code) {
            Err(f) => Err(f),
            Ok(c) => match emit(c, plain(OpCode::JumpIfZero)) {
                Err(f) => Err(f),
                Ok(c2) => match stmt_code(*body, table, level, c2) {
                    Err(f) => Err(f),
                    Ok(c3) => match emit(
                        c3,
                        Instr { opcode: OpCode::Jump, l: 0, a: code.len() as u16 },
                    ) {
                        Err(f) => Err(f),
                        Ok(c4) => Ok(close_jump(c4, c.len() as int)),
                    },
                },
            },
        },
    }
}

/// Statements are compiled in order.
pub open spec fn stmts_code(
    stmts: Seq<StmtView>,
    table: Seq<EntryView>,
    level: u8,
    code: Seq<Instr>,
) -> Code
    decreases stmts,
{
    if stmts.len() == 0 {
        Ok(code)
    } else {
        match stmt_code(stmts[0], table, level, code) {
            Err(f) => Err(f),
            Ok(c) => stmts_code(stmts.drop_first(), table, level, c),
        }
    }
}

/// The entries that the constants of a block add to the table.
pub open spec fn const_entries(consts: Seq<ConstView>) -> Seq<EntryView> {
    Seq::new(
        consts.len(),
        |i: int| EntryView::Const { name: consts[i].name, value: consts[i].value },
    )
}

/// The entries that the variables of a block add to the table: each gets
/// the level of the block and the next free offset of its frame.
pub open spec fn var_entries(vars: Seq<Seq<char>>, level: u8, data_offset: u16) -> Seq<EntryView> {
    Seq::new(
        vars.len(),
        |i: int| EntryView::Var { name: vars[i], level, offset: (data_offset + i) as u16 },
    )
}

/// The entry of a procedure whose code starts where `code` ends.
pub open spec fn proc_entry(name: Seq<char>, level: u8, code: Seq<Instr>) -> EntryView {
    EntryView::Proc { name, level, addr: code.len() as u16 }
}

/// Procedures are entered into the table before their bodies are compiled,
/// so that they can call themselves; each body is a scope of its own, one
/// level deeper, whose declarations are dropped at its end.
pub open spec fn procs_code(
    procs: Seq<ProcView>,
    table: Seq<EntryView>,
    level: u8,
    code: Seq<Instr>,
) -> Result<Laid, Fault>
    decreases procs,
{
    if procs.len() == 0 {
        Ok(Laid { code, table })
    } else {
        let entered = table.push(proc_entry(procs[0].name, level, code));
        if level == u8::MAX {
            Err(Fault { kind: ErrorKind::TooDeep, subject: Seq::empty() })
        } else {
            match block_code(procs[0].body, entered, (level + 1) as u8, DATA_OFFSET as u16, code) {
                Err(f) => Err(f),
                Ok(laid) => procs_code(procs.drop_first(), entered, level, laid.code),
            }
        }
    }
}

/// A block: a jump over the bodies of its procedures, the bodies, then at
/// the target of the jump the allocation of the frame, the statement, and
/// the return. The table that comes back holds the block's declarations.
pub open spec fn block_code(
    b: BlockView,
    table: Seq<EntryView>,
    level: u8,
    data_offset: u16,
    code: Seq<Instr>,
) -> Result<Laid, Fault>
    decreases b,
{
    match emit(code, plain(OpCode::Jump)) {
        Err(f) => Err(f),
        Ok(c0) => if data_offset + b.vars.len() > u16::MAX {
            Err(Fault { kind: ErrorKind::TooManyVars, subject: Seq::empty() })
        } else {
            let declared = table + const_entries(b.consts) + var_entries(
                b.vars,
                level,
                data_offset,
            );
            match procs_code(b.procs, declared, level, c0) {
                Err(f) => Err(f),
                Ok(laid) => match emit(
                    close_jump(laid.code, code.len() as int),
                    Instr {
                        opcode: OpCode::IncTop,
                        l: 0,
                        a: (data_offset + b.vars.len()) as u16,
                    },
                ) {
                    Err(f) => Err(f),
                    Ok(c2) => match stmt_code(b.stmt, laid.table, level, c2) {
                        Err(f) => Err(f),
                        Ok(c3) => match emit(c3, plain(OpCode::Return)) {
                            Err(f) => Err(f),
                            Ok(c4) => Ok(Laid { code: c4, table: laid.table }),
                        },
                    },
                },
            }
        },
    }
}

/// The chunk of a program: its block, compiled at level 0 into an empty
/// code space with an empty table.
pub open spec fn program_code(p: ProgramView) -> Code {
    match block_code(p.block, Seq::empty(), 0, DATA_OFFSET as u16, Seq::empty()) {
        Err(f) => Err(f),
        Ok(laid) => Ok(laid.code),
    }
}

/// Whether `after` is `before` with more instructions behind it.
pub open spec fn extends(before: Seq<Instr>, after: Seq<Instr>) -> bool {
    &&& before.len() <= after.len()
    &&& forall|i: int| 0 <= i < before.len() ==> after[i] == before[i]
}

/// Compiling an expression only adds instructions.
pub proof fn lemma_expr_extends(e: ExprView, table: Seq<EntryView>, level: u8, code: Seq<Instr>)
    ensures
        expr_code(e, table, level, code) matches Ok(c) ==> extends(code, c) && (code.len()
            <= CODE_SIZE ==> c.len() <= CODE_SIZE),
    decreases e,
{
    match e {
        ExprView::Unary { op, expr } => {
            lemma_expr_extends(*expr, table, level, code);
        },
        ExprView::Binary { op, lhs, rhs } => {
            lemma_expr_extends(*lhs, table, level, code);
            if let Ok(c) = expr_code(*lhs, table, level, code) {
                lemma_expr_extends(*rhs, table, level, c);
            }
        },
        _ => {},
    }
}

/// Compiling a condition only adds instructions.
pub proof fn lemma_cond_extends(c: CondView, table: Seq<EntryView>, level: u8, code: Seq<Instr>)
    ensures
        cond_code(c, table, level, code) matches Ok(after) ==> extends(code, after) && (
        code.len() <= CODE_SIZE ==> after.len() <= CODE_SIZE),
{
    match c {
        CondView::Odd(e) => {
            lemma_expr_extends(e, table, level, code);
        },
        CondView::Bin { op, lhs, rhs } => {
            lemma_expr_extends(lhs, table, level, code);
            if let Ok(c) = expr_code(lhs, table, level, code) {
                lemma_expr_extends(rhs, table, level, c);
            }
        },
    }
}

/// Compiling a statement only adds instructions: what it patches is its own.
pub proof fn lemma_stmt_extends(s: StmtView, table: Seq<EntryView>, level: u8, code: Seq<Instr>)
    ensures
        stmt_code(s, table, level, code) matches Ok(c) ==> extends(code, c) && (code.len()
            <= CODE_SIZE ==> c.len() <= CODE_SIZE),
    decreases s,
{
    match s {
        StmtView::Assign { lhs, rhs } => {
            lemma_expr_extends(rhs, table, level, code);
        },
        StmtView::Write { expr } => {
            lemma_expr_extends(expr, table, level, code);
        },
        StmtView::SubBlock { stmts } => {
            lemma_stmts_extends(stmts, table, level, code);
        },
        StmtView::If { head, body } => {
            lemma_cond_extends(head, table, level, code);
            if let Ok(c) = cond_code(head, table, level, code) {
                if let Ok(c2) = emit(c, plain(OpCode::JumpIfZero)) {
                    lemma_stmt_extends(*body, table, level, c2);
                }
            }
        },
        StmtView::While { head, body } => {
            lemma_cond_extends(head, table, level, code);
            if let Ok(c) = cond_code(head, table, level, code) {
                if let Ok(c2) = emit(c, plain(OpCode::JumpIfZero)) {
                    lemma_stmt_extends(*body, table, level, c2);
                }
            }
        },
        _ => {},
    }
}

/// Compiling statements only adds instructions.
pub proof fn lemma_stmts_extends(
    stmts: Seq<StmtView>,
    table: Seq<EntryView>,
    level: u8,
    code: Seq<Instr>,
)
    ensures
        stmts_code(stmts, table, level, code) matches Ok(c) ==> extends(code, c) && (code.len()
            <= CODE_SIZE ==> c.len() <= CODE_SIZE),
    decreases stmts,
{
    if stmts.len() > 0 {
        lemma_stmt_extends(stmts[0], table, level, code);
        if let Ok(c) = stmt_code(stmts[0], table, level, code) {
            lemma_stmts_extends(stmts.drop_first(), table, level, c);
        }
    }
}

/// Compiling procedures only adds instructions, and adds one entry for each.
pub proof fn lemma_procs_extends(
    procs: Seq<ProcView>,
    table: Seq<EntryView>,
    level: u8,
    code: Seq<Instr>,
)
    ensures
        procs_code(procs, table, level, code) matches Ok(laid) ==> extends(code, laid.code)
            && laid.table.len() == table.len() + procs.len() && (code.len() <= CODE_SIZE
            ==> laid.code.len() <= CODE_SIZE),
    decreases procs,
{
    if procs.len() > 0 && level < u8::MAX {
        let entered = table.push(proc_entry(procs[0].name, level, code));
        lemma_block_extends(procs[0].body, entered, (level + 1) as u8, DATA_OFFSET as u16, code);
        if let Ok(laid) = block_code(
            procs[0].body,
            entered,
            (level + 1) as u8,
            DATA_OFFSET as u16,
            code,
        ) {
            lemma_procs_extends(procs.drop_first(), entered, level, laid.code);
        }
    }
}

/// Compiling a block only adds instructions, at least the jump at its
/// start and the return at its end.
pub proof fn lemma_block_extends(
    b: BlockView,
    table: Seq<EntryView>,
    level: u8,
    data_offset: u16,
    code: Seq<Instr>,
)
    ensures
        block_code(b, table, level, data_offset, code) matches Ok(laid) ==> extends(
            code,
            laid.code,
        ) && laid.code.len() >= code.len() + 3 && laid.code.len() <= CODE_SIZE,
    decreases b,
{
    if let Ok(c0) = emit(code, plain(OpCode::Jump)) {
        if data_offset + b.vars.len() <= u16::MAX {
            let declared = table + const_entries(b.consts) + var_entries(
                b.vars,
                level,
                data_offset,
            );
            lemma_procs_extends(b.procs, declared, level, c0);
            if let Ok(laid) = procs_code(b.procs, declared, level, c0) {
                let c1 = close_jump(laid.code, code.len() as int);
                let inc = Instr {
                    opcode: OpCode::IncTop,
                    l: 0,
                    a: (data_offset + b.vars.len()) as u16,
                };
                if let Ok(c2) = emit(c1, inc) {
                    lemma_stmt_extends(b.stmt, laid.table, level, c2);
                }
            }
        }
    }
}

} // verus!
