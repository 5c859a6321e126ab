//! What holds of every chunk that the compiler makes.
use vstd::prelude::*;
use crate::ast::{BlockView, CondView, ExprView, ProcView, ProgramView, StmtView};
use crate::bytecode::{Instr, Math, OpCode};
use crate::codegen::plain;
use crate::limits::{CODE_SIZE, DATA_OFFSET};
use crate::schedule::{
    block_code, close_jump, cond_code, const_entries, emit, expr_code, extends, lemma_block_extends,
    lemma_cond_extends, lemma_expr_extends, lemma_procs_extends, lemma_stmt_extends,
    lemma_stmts_extends, proc_entry, procs_code, program_code, stmt_code, stmts_code, store_code,
    var_entries,
};
use crate::symbols::{lemma_resolve_is_latest, resolve, EntryView};

verus! {

/// Whether every call and jump of `code` goes to an address below `bound`.
pub open spec fn targets_below(code: Seq<Instr>, bound: int) -> bool {
    forall|i: int| 0 <= i < code.len() && (#[trigger] code[i]).is_transfer() ==> code[i].a < bound
}

/// Whether every call and jump of `code` goes to an address in the code or
/// to the address behind it, where the next instruction will stand.
pub open spec fn targets_reach(code: Seq<Instr>) -> bool {
    targets_below(code, code.len() as int + 1)
}

/// Whether every procedure of `table` starts in the code or at the
/// address behind it.
pub open spec fn procs_reach(table: Seq<EntryView>, code: Seq<Instr>) -> bool {
    forall|i: int|
        0 <= i < table.len() ==> ((#[trigger] table[i]) matches EntryView::Proc { addr, .. }
            ==> addr <= code.len())
}

/// The state of the compiler between two constructs: the code fits into
/// the code space, and nothing in it or in the table points beyond it.
pub open spec fn sound(code: Seq<Instr>, table: Seq<EntryView>) -> bool {
    &&& code.len() <= CODE_SIZE
    &&& targets_reach(code)
    &&& procs_reach(table, code)
}

proof fn lemma_emit_sound(code: Seq<Instr>, table: Seq<EntryView>, instr: Instr)
    requires
        sound(code, table),
        instr.is_transfer() ==> instr.a <= code.len() + 1,
    ensures
        emit(code, instr) matches Ok(c) ==> sound(c, table) && c.len() == code.len() + 1,
{
}

proof fn lemma_close_sound(code: Seq<Instr>, table: Seq<EntryView>, jump: int)
    requires
        sound(code, table),
        0 <= jump < code.len(),
    ensures
        sound(close_jump(code, jump), table),
        close_jump(code, jump).len() == code.len(),
{
    let c = close_jump(code, jump);
    assert forall|i: int| 0 <= i < c.len() && (#[trigger] c[i]).is_transfer() implies c[i].a
        < c.len() + 1 by {
        if i != jump {
            assert(c[i] == code[i]);
        }
    }
}

proof fn lemma_resolved_proc_reaches(table: Seq<EntryView>, code: Seq<Instr>, name: Seq<char>)
    requires
        procs_reach(table, code),
    ensures
        resolve(table, name) matches Some(EntryView::Proc { addr, .. }) ==> addr <= code.len(),
{
    lemma_resolve_is_latest(table, name);
}

proof fn lemma_expr_sound(e: ExprView, table: Seq<EntryView>, level: u8, code: Seq<Instr>)
    requires
        sound(code, table),
    ensures
        expr_code(e, table, level, code) matches Ok(c) ==> sound(c, table),
    decreases e,
{
    match e {
        ExprView::Num(n) => {
            lemma_emit_sound(code, table, crate::schedule::lit(n));
        },
        ExprView::Unary { op, expr } => {
            lemma_expr_sound(*expr, table, level, code);
            if let Ok(c) = expr_code(*expr, table, level, code) {
                lemma_emit_sound(c, table, plain(OpCode::Math(Math::Neg)));
            }
        },
        ExprView::Binary { op, lhs, rhs } => {
            lemma_expr_sound(*lhs, table, level, code);
            if let Ok(c) = expr_code(*lhs, table, level, code) {
                lemma_expr_sound(*rhs, table, level, c);
                if let Ok(c2) = expr_code(*rhs, table, level, c) {
                    lemma_emit_sound(c2, table, plain(OpCode::Math(crate::schedule::bin_math(op))));
                }
            }
        },
        ExprView::Name(name) => {
            match resolve(table, name) {
                Some(EntryView::Const { value, .. }) => {
                    lemma_emit_sound(code, table, crate::schedule::lit(value));
                },
                Some(EntryView::Var { level: declared, offset, .. }) => {
                    lemma_emit_sound(
                        code,
                        table,
                        Instr {
                            opcode: OpCode::Load,
                            l: crate::schedule::delta(level, declared),
                            a: offset,
                        },
                    );
                },
                _ => {},
            }
        },
        ExprView::Invalid => {},
    }
}

proof fn lemma_cond_sound(c: CondView, table: Seq<EntryView>, level: u8, code: Seq<Instr>)
    requires
        sound(code, table),
    ensures
        cond_code(c, table, level, code) matches Ok(after) ==> sound(after, table),
{
    match c {
        CondView::Odd(e) => {
            lemma_expr_sound(e, table, level, code);
            if let Ok(c1) = expr_code(e, table, level, code) {
                lemma_emit_sound(c1, table, plain(OpCode::Math(Math::Odd)));
            }
        },
        CondView::Bin { op, lhs, rhs } => {
            lemma_expr_sound(lhs, table, level, code);
            if let Ok(c1) = expr_code(lhs, table, level, code) {
                lemma_expr_sound(rhs, table, level, c1);
                if let Ok(c2) = expr_code(rhs, table, level, c1) {
                    lemma_emit_sound(
                        c2,
                        table,
                        plain(OpCode::Math(crate::schedule::cond_math(op))),
                    );
                }
            }
        },
    }
}

proof fn lemma_store_sound(name: Seq<char>, table: Seq<EntryView>, level: u8, code: Seq<Instr>)
    requires
        sound(code, table),
    ensures
        store_code(name, table, level, code) matches Ok(c) ==> sound(c, table),
{
    if let Some(EntryView::Var { level: declared, offset, .. }) = resolve(table, name) {
        lemma_emit_sound(
            code,
            table,
            Instr { opcode: OpCode::Store, l: crate::schedule::delta(level, declared), a: offset },
        );
    }
}

proof fn lemma_stmt_sound(s: StmtView, table: Seq<EntryView>, level: u8, code: Seq<Instr>)
    requires
        sound(code, table),
    ensures
        stmt_code(s, table, level, code) matches Ok(c) ==> sound(c, table),
    decreases s,
{
    match s {
        StmtView::Assign { lhs, rhs } => {
            lemma_expr_sound(rhs, table, level, code);
            if let Ok(c) = expr_code(rhs, table, level, code) {
                lemma_store_sound(lhs, table, level, c);
            }
        },
        StmtView::Call { name } => {
            lemma_resolved_proc_reaches(table, code, name);
            if let Some(EntryView::Proc { level: declared, addr, .. }) = resolve(table, name) {
                lemma_emit_sound(
                    code,
                    table,
                    Instr {
                        opcode: OpCode::Call,
                        l: crate::schedule::delta(level, declared),
                        a: addr,
                    },
                );
            }
        },
        StmtView::Read { name } => {
            lemma_emit_sound(code, table, plain(OpCode::Read));
            if let Ok(c) = emit(code, plain(OpCode::Read)) {
                lemma_store_sound(name, table, level, c);
            }
        },
        StmtView::Write { expr } => {
            lemma_expr_sound(expr, table, level, code);
            if let Ok(c) = expr_code(expr, table, level, code) {
                lemma_emit_sound(c, table, plain(OpCode::Write));
            }
        },
        StmtView::SubBlock { stmts } => {
            lemma_stmts_sound(stmts, table, level, code);
        },
        StmtView::If { head, body } => {
            lemma_cond_sound(head, table, level, code);
            if let Ok(c) = cond_code(head, table, level, code) {
                lemma_emit_sound(c, table, plain(OpCode::JumpIfZero));
                if let Ok(c2) = emit(c, plain(OpCode::JumpIfZero)) {
                    lemma_stmt_sound(*body, table, level, c2);
                    lemma_stmt_extends(*body, table, level, c2);
                    if let Ok(c3) = stmt_code(*body, table, level, c2) {
                        lemma_close_sound(c3, table, c.len() as int);
                    }
                }
            }
        },
        StmtView::While { head, body } => {
            lemma_cond_sound(head, table, level, code);
            lemma_cond_extends(head, table, level, code);
            if let Ok(c) = cond_code(head, table, level, code) {
                lemma_emit_sound(c, table, plain(OpCode::JumpIfZero));
                if let Ok(c2) = emit(c, plain(OpCode::JumpIfZero)) {
                    lemma_stmt_sound(*body, table, level, c2);
                    lemma_stmt_extends(*body, table, level, c2);
                    if let Ok(c3) = stmt_code(*body, table, level, c2) {
                        let back = Instr { opcode: OpCode::Jump, l: 0, a: code.len() as u16 };
                        lemma_emit_sound(c3, table, back);
                        if let Ok(c4) = emit(c3, back) {
                            lemma_close_sound(c4, table, c.len() as int);
                        }
                    }
                }
            }
        },
    }
}

proof fn lemma_stmts_sound(
    stmts: Seq<StmtView>,
    table: Seq<EntryView>,
    level: u8,
    code: Seq<Instr>,
)
    requires
        sound(code, table),
    ensures
        stmts_code(stmts, table, level, code) matches Ok(c) ==> sound(c, table),
    decreases stmts,
{
    if stmts.len() > 0 {
        lemma_stmt_sound(stmts[0], table, level, code);
        if let Ok(c) = stmt_code(stmts[0], table, level, code) {
            lemma_stmts_sound(stmts.drop_first(), table, level, c);
        }
    }
}

proof fn lemma_procs_sound(
    procs: Seq<ProcView>,
    table: Seq<EntryView>,
    level: u8,
    code: Seq<Instr>,
)
    requires
        sound(code, table),
    ensures
        procs_code(procs, table, level, code) matches Ok(laid) ==> sound(laid.code, laid.table),
    decreases procs,
{
    if procs.len() > 0 && level < u8::MAX {
        let entered = table.push(proc_entry(procs[0].name, level, code));
        assert(procs_reach(entered, code)) by {
            assert forall|i: int| 0 <= i < entered.len() implies ((
            #[trigger] entered[i]) matches EntryView::Proc { addr, .. } ==> addr
                <= code.len()) by {
                if i < table.len() {
                    assert(entered[i] == table[i]);
                }
            }
        }
        lemma_block_sound(procs[0].body, entered, (level + 1) as u8, DATA_OFFSET as u16, code);
        lemma_block_extends(procs[0].body, entered, (level + 1) as u8, DATA_OFFSET as u16, code);
        if let Ok(laid) = block_code(
            procs[0].body,
            entered,
            (level + 1) as u8,
            DATA_OFFSET as u16,
            code,
        ) {
            lemma_procs_sound(procs.drop_first(), entered, level, laid.code);
        }
    }
}

/// Compiling a block keeps the outer table sound, and leaves no call or
/// jump that goes beyond the code: the return is the last instruction.
proof fn lemma_block_sound(
    b: BlockView,
    table: Seq<EntryView>,
    level: u8,
    data_offset: u16,
    code: Seq<Instr>,
)
    requires
        sound(code, table),
    ensures
        block_code(b, table, level, data_offset, code) matches Ok(laid) ==> sound(
            laid.code,
            laid.table,
        ) && sound(laid.code, table) && targets_below(laid.code, laid.code.len() as int),
    decreases b,
{
    lemma_emit_sound(code, table, plain(OpCode::Jump));
    lemma_block_extends(b, table, level, data_offset, code);
    if let Ok(c0) = emit(code, plain(OpCode::Jump)) {
        if data_offset + b.vars.len() <= u16::MAX {
            let declared = table + const_entries(b.consts) + var_entries(
                b.vars,
                level,
                data_offset,
            );
            assert(procs_reach(declared, c0)) by {
                assert forall|i: int| 0 <= i < declared.len() implies ((
                #[trigger] declared[i]) matches EntryView::Proc { addr, .. } ==> addr
                    <= c0.len()) by {
                    if i < table.len() {
                        assert(declared[i] == table[i]);
                    }
                }
            }
            lemma_procs_sound(b.procs, declared, level, c0);
            lemma_procs_extends(b.procs, declared, level, c0);
            if let Ok(laid) = procs_code(b.procs, declared, level, c0) {
                lemma_close_sound(laid.code, laid.table, code.len() as int);
                let c1 = close_jump(laid.code, code.len() as int);
                let inc = Instr {
                    opcode: OpCode::IncTop,
                    l: 0,
                    a: (data_offset + b.vars.len()) as u16,
                };
                lemma_emit_sound(c1, laid.table, inc);
                if let Ok(c2) = emit(c1, inc) {
                    lemma_stmt_sound(b.stmt, laid.table, level, c2);
                    if let Ok(c3) = stmt_code(b.stmt, laid.table, level, c2) {
                        lemma_emit_sound(c3, laid.table, plain(OpCode::Return));
                        if let Ok(c4) = emit(c3, plain(OpCode::Return)) {
                            assert(targets_below(c4, c4.len() as int)) by {
                                assert forall|i: int|
                                    0 <= i < c4.len() && (
                                    #[trigger] c4[i]).is_transfer() implies c4[i].a
                                    < c4.len() by {
                                    if i < c3.len() {
                                        assert(c4[i] == c3[i]);
                                    }
                                }
                            }
                            assert(procs_reach(table, c4)) by {
                                assert forall|i: int| 0 <= i < table.len() implies ((
                                #[trigger] table[i]) matches EntryView::Proc { addr, .. } ==> addr
                                    <= c4.len()) by {}
                            }
                        }
                    }
                }
            }
        }
    }
}

/// In the chunk of a program every call and every jump goes to an address
/// in the chunk, and the chunk fits into the code space.
pub proof fn lemma_targets_valid(p: ProgramView)
    ensures
        program_code(p) matches Ok(code) ==> code.len() <= CODE_SIZE && forall|i: int|
            0 <= i < code.len() && (#[trigger] code[i]).is_transfer() ==> code[i].a < code.len(),
{
    lemma_block_sound(p.block, Seq::empty(), 0, DATA_OFFSET as u16, Seq::empty());
}

/// By how much an instruction moves the top of the stack. A return is
/// counted as 0: it drops the frame, whatever lies on it.
pub open spec fn effect(instr: Instr) -> int {
    match instr.opcode {
        OpCode::NoOp | OpCode::Call | OpCode::Return | OpCode::Jump => 0,
        OpCode::Lit | OpCode::Load | OpCode::Read => 1,
        OpCode::Store | OpCode::JumpIfZero | OpCode::Write => -1,
        OpCode::IncTop => instr.a as int,
        OpCode::Math(op) => if op.is_unary() {
            0
        } else {
            -1
        },
    }
}

/// The stack effect of the instructions `from..to` of `code`: the sum of
/// their effects.
pub open spec fn net(code: Seq<Instr>, from: int, to: int) -> int
    decreases to - from,
{
    if to <= from {
        0
    } else {
        net(code, from, to - 1) + effect(code[to - 1])
    }
}

/// The effect of an instruction is what the machine does to the top of the
/// stack when it carries the instruction out, but for a return.
pub proof fn lemma_effect_moves_top(m: crate::machine::Machine, instr: Instr, input: Option<i32>)
    requires
        instr.opcode != OpCode::Return,
    ensures
        m.exec(instr, input) matches Ok(after) ==> after.top == m.top + effect(instr),
{
}

/// A return leaves the top of the stack where it was when the frame was
/// called: right below the block mark, where a call sets the base.
pub proof fn lemma_return_undoes_call(
    m: crate::machine::Machine,
    call: Instr,
    callee: crate::machine::Machine,
    input: Option<i32>,
)
    requires
        m.wf(),
        call.opcode == OpCode::Call,
        m.exec(call, input) matches Ok(entered) && callee.base == entered.base && callee.stack[
            callee.base + 1
        ] == entered.stack[entered.base + 1] && callee.stack[callee.base + 2]
            == entered.stack[entered.base + 2],
    ensures
        callee.exec(plain(OpCode::Return), input) matches Ok(after) && after.top == m.top
            && after.base == m.base && after.pc == (m.pc + 1) % (CODE_SIZE as int),
{
    crate::machine::lemma_find_base_range(m, m.base, call.l as nat);
}

proof fn lemma_net_agree(c1: Seq<Instr>, c2: Seq<Instr>, from: int, to: int)
    requires
        0 <= from <= to <= c1.len(),
        to <= c2.len(),
        forall|i: int| from <= i < to ==> effect(#[trigger] c1[i]) == effect(c2[i]),
    ensures
        net(c1, from, to) == net(c2, from, to),
    decreases to - from,
{
    if from < to {
        lemma_net_agree(c1, c2, from, to - 1);
    }
}

proof fn lemma_net_split(code: Seq<Instr>, from: int, mid: int, to: int)
    requires
        from <= mid <= to,
    ensures
        net(code, from, to) == net(code, from, mid) + net(code, mid, to),
    decreases to - mid,
{
    if mid < to {
        lemma_net_split(code, from, mid, to - 1);
    }
}

/// The effect of a segment that was emitted before stays when code is
/// emitted behind it.
proof fn lemma_net_extends(c1: Seq<Instr>, c2: Seq<Instr>, from: int, to: int)
    requires
        extends(c1, c2),
        0 <= from <= to <= c1.len(),
    ensures
        net(c2, from, to) == net(c1, from, to),
{
    lemma_net_agree(c2, c1, from, to);
}

/// The effect of the code from `from` on, after one more instruction.
proof fn lemma_net_emit(code: Seq<Instr>, instr: Instr, from: int)
    requires
        0 <= from <= code.len(),
    ensures
        emit(code, instr) matches Ok(c) ==> net(c, from, c.len() as int) == net(
            code,
            from,
            code.len() as int,
        ) + effect(instr) && extends(code, c),
{
    if let Ok(c) = emit(code, instr) {
        lemma_net_agree(c, code, from, code.len() as int);
    }
}

/// Giving a jump its target changes no effect.
proof fn lemma_net_close(code: Seq<Instr>, jump: int, from: int, to: int)
    requires
        0 <= jump < code.len(),
        code[jump].is_jump(),
        0 <= from <= to <= code.len(),
    ensures
        net(close_jump(code, jump), from, to) == net(code, from, to),
{
    lemma_net_agree(close_jump(code, jump), code, from, to);
}

/// The code of an expression has the stack effect +1: it leaves one value.
pub proof fn lemma_expr_pushes_one(e: ExprView, table: Seq<EntryView>, level: u8, code: Seq<Instr>)
    ensures
        expr_code(e, table, level, code) matches Ok(c) ==> extends(code, c) && net(
            c,
            code.len() as int,
            c.len() as int,
        ) == 1,
    decreases e,
{
    let n = code.len() as int;
    lemma_expr_extends(e, table, level, code);
    match e {
        ExprView::Num(v) => {
            lemma_net_emit(code, crate::schedule::lit(v), n);
        },
        ExprView::Unary { op, expr } => {
            lemma_expr_pushes_one(*expr, table, level, code);
            if let Ok(c) = expr_code(*expr, table, level, code) {
                lemma_net_emit(c, plain(OpCode::Math(Math::Neg)), n);
            }
        },
        ExprView::Binary { op, lhs, rhs } => {
            lemma_expr_pushes_one(*lhs, table, level, code);
            if let Ok(c1) = expr_code(*lhs, table, level, code) {
                lemma_expr_pushes_one(*rhs, table, level, c1);
                if let Ok(c2) = expr_code(*rhs, table, level, c1) {
                    lemma_net_extends(c1, c2, n, c1.len() as int);
                    lemma_net_split(c2, n, c1.len() as int, c2.len() as int);
                    lemma_net_emit(c2, plain(OpCode::Math(crate::schedule::bin_math(op))), n);
                }
            }
        },
        ExprView::Name(name) => {
            match resolve(table, name) {
                Some(EntryView::Const { value, .. }) => {
                    lemma_net_emit(code, crate::schedule::lit(value), n);
                },
                Some(EntryView::Var { level: declared, offset, .. }) => {
                    lemma_net_emit(
                        code,
                        Instr {
                            opcode: OpCode::Load,
                            l: crate::schedule::delta(level, declared),
                            a: offset,
                        },
                        n,
                    );
                },
                _ => {},
            }
        },
        ExprView::Invalid => {},
    }
}

/// The code of a condition has the stack effect +1: it leaves one value.
pub proof fn lemma_cond_pushes_one(c: CondView, table: Seq<EntryView>, level: u8, code: Seq<Instr>)
    ensures
        cond_code(c, table, level, code) matches Ok(after) ==> extends(code, after) && net(
            after,
            code.len() as int,
            after.len() as int,
        ) == 1,
{
    let n = code.len() as int;
    lemma_cond_extends(c, table, level, code);
    match c {
        CondView::Odd(e) => {
            lemma_expr_pushes_one(e, table, level, code);
            if let Ok(c1) = expr_code(e, table, level, code) {
                lemma_net_emit(c1, plain(OpCode::Math(Math::Odd)), n);
            }
        },
        CondView::Bin { op, lhs, rhs } => {
            lemma_expr_pushes_one(lhs, table, level, code);
            if let Ok(c1) = expr_code(lhs, table, level, code) {
                lemma_expr_pushes_one(rhs, table, level, c1);
                if let Ok(c2) = expr_code(rhs, table, level, c1) {
                    lemma_net_extends(c1, c2, n, c1.len() as int);
                    lemma_net_split(c2, n, c1.len() as int, c2.len() as int);
                    lemma_net_emit(c2, plain(OpCode::Math(crate::schedule::cond_math(op))), n);
                }
            }
        },
    }
}

proof fn lemma_store_pops_one(
    name: Seq<char>,
    table: Seq<EntryView>,
    level: u8,
    code: Seq<Instr>,
    from: int,
)
    requires
        0 <= from <= code.len(),
    ensures
        store_code(name, table, level, code) matches Ok(c) ==> extends(code, c) && net(
            c,
            from,
            c.len() as int,
        ) == net(code, from, code.len() as int) - 1,
{
    if let Some(EntryView::Var { level: declared, offset, .. }) = resolve(table, name) {
        lemma_net_emit(
            code,
            Instr { opcode: OpCode::Store, l: crate::schedule::delta(level, declared), a: offset },
            from,
        );
    }
}

/// The code of a statement has the stack effect 0: it leaves the stack as
/// it found it.
pub proof fn lemma_stmt_balanced(s: StmtView, table: Seq<EntryView>, level: u8, code: Seq<Instr>)
    ensures
        stmt_code(s, table, level, code) matches Ok(c) ==> extends(code, c) && net(
            c,
            code.len() as int,
            c.len() as int,
        ) == 0,
    decreases s,
{
    let n = code.len() as int;
    lemma_stmt_extends(s, table, level, code);
    match s {
        StmtView::Assign { lhs, rhs } => {
            lemma_expr_pushes_one(rhs, table, level, code);
            if let Ok(c) = expr_code(rhs, table, level, code) {
                lemma_store_pops_one(lhs, table, level, c, n);
            }
        },
        StmtView::Call { name } => {
            if let Some(EntryView::Proc { level: declared, addr, .. }) = resolve(table, name) {
                lemma_net_emit(
                    code,
                    Instr {
                        opcode: OpCode::Call,
                        l: crate::schedule::delta(level, declared),
                        a: addr,
                    },
                    n,
                );
            }
        },
        StmtView::Read { name } => {
            lemma_net_emit(code, plain(OpCode::Read), n);
            if let Ok(c) = emit(code, plain(OpCode::Read)) {
                lemma_store_pops_one(name, table, level, c, n);
            }
        },
        StmtView::Write { expr } => {
            lemma_expr_pushes_one(expr, table, level, code);
            if let Ok(c) = expr_code(expr, table, level, code) {
                lemma_net_emit(c, plain(OpCode::Write), n);
            }
        },
        StmtView::SubBlock { stmts } => {
            lemma_stmts_balanced(stmts, table, level, code);
        },
        StmtView::If { head, body } => {
            lemma_cond_pushes_one(head, table, level, code);
            if let Ok(c) = cond_code(head, table, level, code) {
                lemma_net_emit(c, plain(OpCode::JumpIfZero), n);
                if let Ok(c2) = emit(c, plain(OpCode::JumpIfZero)) {
                    lemma_stmt_balanced(*body, table, level, c2);
                    if let Ok(c3) = stmt_code(*body, table, level, c2) {
                        lemma_net_extends(c2, c3, n, c2.len() as int);
                        lemma_net_split(c3, n, c2.len() as int, c3.len() as int);
                        assert(c3[c.len() as int] == c2[c.len() as int]);
                        lemma_net_close(c3, c.len() as int, n, c3.len() as int);
                    }
                }
            }
        },
        StmtView::While { head, body } => {
            lemma_cond_pushes_one(head, table, level, code);
            if let Ok(c) = cond_code(head, table, level, code) {
                lemma_net_emit(c, plain(OpCode::JumpIfZero), n);
                if let Ok(c2) = emit(c, plain(OpCode::JumpIfZero)) {
                    lemma_stmt_balanced(*body, table, level, c2);
                    if let Ok(c3) = stmt_code(*body, table, level, c2) {
                        lemma_net_extends(c2, c3, n, c2.len() as int);
                        lemma_net_split(c3, n, c2.len() as int, c3.len() as int);
                        let back = Instr { opcode: OpCode::Jump, l: 0, a: code.len() as u16 };
                        lemma_net_emit(c3, back, n);
                        if let Ok(c4) = emit(c3, back) {
                            assert(c4[c.len() as int] == c2[c.len() as int]);
                            lemma_net_close(c4, c.len() as int, n, c4.len() as int);
                        }
                    }
                }
            }
        },
    }
}

/// The code of statements, one behind the other, has the stack effect 0.
pub proof fn lemma_stmts_balanced(
    stmts: Seq<StmtView>,
    table: Seq<EntryView>,
    level: u8,
    code: Seq<Instr>,
)
    ensures
        stmts_code(stmts, table, level, code) matches Ok(c) ==> extends(code, c) && net(
            c,
            code.len() as int,
            c.len() as int,
        ) == 0,
    decreases stmts,
{
    let n = code.len() as int;
    lemma_stmts_extends(stmts, table, level, code);
    if stmts.len() > 0 {
        lemma_stmt_balanced(stmts[0], table, level, code);
        if let Ok(c) = stmt_code(stmts[0], table, level, code) {
            lemma_stmts_balanced(stmts.drop_first(), table, level, c);
            if let Ok(c2) = stmts_code(stmts.drop_first(), table, level, c) {
                lemma_net_extends(c, c2, n, c.len() as int);
                lemma_net_split(c2, n, c.len() as int, c2.len() as int);
            }
        }
    }
}

/// The shape of the code of a block: it starts with a jump to the
/// allocation of its frame, which has room for the block mark and the
/// variables; it ends with a return; and the code between the two has the
/// stack effect 0. So the top of the stack is where the allocation left
/// it when the return drops the frame, and back where the caller had it
/// after that.
pub proof fn lemma_block_balanced(
    b: BlockView,
    table: Seq<EntryView>,
    level: u8,
    data_offset: u16,
    code: Seq<Instr>,
)
    ensures
        block_code(b, table, level, data_offset, code) matches Ok(laid) ==> ({
            let c = laid.code;
            let entry = c[code.len() as int].a as int;
            &&& c[code.len() as int].opcode == OpCode::Jump
            &&& code.len() < entry < c.len() - 1
            &&& c[entry] == Instr {
                opcode: OpCode::IncTop,
                l: 0,
                a: (data_offset + b.vars.len()) as u16,
            }
            &&& c[c.len() - 1] == plain(OpCode::Return)
            &&& net(c, entry + 1, c.len() - 1) == 0
        }),
{
    lemma_block_extends(b, table, level, data_offset, code);
    if let Ok(c0) = emit(code, plain(OpCode::Jump)) {
        if data_offset + b.vars.len() <= u16::MAX {
            let declared = table + const_entries(b.consts) + var_entries(
                b.vars,
                level,
                data_offset,
            );
            lemma_procs_extends(b.procs, declared, level, c0);
            if let Ok(laid) = procs_code(b.procs, declared, level, c0) {
                let c1 = close_jump(laid.code, code.len() as int);
                let inc = Instr {
                    opcode: OpCode::IncTop,
                    l: 0,
                    a: (data_offset + b.vars.len()) as u16,
                };
                if let Ok(c2) = emit(c1, inc) {
                    lemma_stmt_balanced(b.stmt, laid.table, level, c2);
                    if let Ok(c3) = stmt_code(b.stmt, laid.table, level, c2) {
                        if let Ok(c4) = emit(c3, plain(OpCode::Return)) {
                            lemma_net_agree(c4, c3, c2.len() as int, c3.len() as int);
                            assert(c4[code.len() as int] == c1[code.len() as int]);
                            assert(c4[c1.len() as int] == c2[c1.len() as int]);
                        }
                    }
                }
            }
        }
    }
}

} // verus!
