//! The shape of compiled code: the sites of the instructions that the
//! compiler emits, and the proof that the instructions keep to them.
use vstd::prelude::*;
use crate::ast::{BlockView, CondView, ExprView, ProcView, ProgramView, StmtView, UnOp};
use crate::bytecode::{Instr, Math, OpCode};
use crate::codegen::plain;
use crate::frames::{honest, lemma_initial_disciplined, lemma_run_faults, lemma_run_kept, Frame};
use crate::laws::lemma_expr_pushes_one;
use crate::limits::{CODE_SIZE, DATA_OFFSET};
use crate::machine::{load, Ending, Machine, Run};
use crate::schedule::{
    block_code, close_jump, cond_code, const_entries, delta, emit, expr_code, extends,
    lemma_block_extends, lemma_cond_extends, lemma_procs_extends, lemma_stmt_extends, lit,
    proc_entry, procs_code, program_code, stmt_code, stmts_code, store_code, var_entries,
};
use crate::shape::{ancestor, ok_at, shaped, site_wf, var_ok, Site};
use crate::symbols::{lemma_resolve_is_latest, resolve, EntryView};

verus! {

/// The sites of the code of an expression that starts at `here`.
pub open spec fn expr_sites(e: ExprView, here: Site) -> Seq<Site>
    decreases e,
{
    match e {
        ExprView::Num(_) => seq![here],
        ExprView::Unary { op, expr } => expr_sites(*expr, here) + (if op == UnOp::Neg {
            seq![here.at(here.depth + 1)]
        } else {
            Seq::empty()
        }),
        ExprView::Binary { op, lhs, rhs } => expr_sites(*lhs, here) + expr_sites(
            *rhs,
            here.at(here.depth + 1),
        ) + seq![here.at(here.depth + 2)],
        ExprView::Name(_) => seq![here],
        ExprView::Invalid => Seq::empty(),
    }
}

/// The sites of the code of a condition that starts at `here`.
pub open spec fn cond_sites(c: CondView, here: Site) -> Seq<Site> {
    match c {
        CondView::Odd(e) => expr_sites(e, here) + seq![here.at(here.depth + 1)],
        CondView::Bin { op, lhs, rhs } => expr_sites(lhs, here) + expr_sites(
            rhs,
            here.at(here.depth + 1),
        ) + seq![here.at(here.depth + 2)],
    }
}

/// The sites of the code of a statement that starts at `here`.
pub open spec fn stmt_sites(s: StmtView, here: Site) -> Seq<Site>
    decreases s,
{
    match s {
        StmtView::Assign { lhs, rhs } => expr_sites(rhs, here) + seq![here.at(here.depth + 1)],
        StmtView::Call { name } => seq![here],
        StmtView::Read { name } => seq![here, here.at(here.depth + 1)],
        StmtView::Write { expr } => expr_sites(expr, here) + seq![here.at(here.depth + 1)],
        StmtView::SubBlock { stmts } => stmts_sites(stmts, here),
        StmtView::If { head, body } => cond_sites(head, here) + seq![here.at(here.depth + 1)]
            + stmt_sites(*body, here),
        StmtView::While { head, body } => cond_sites(head, here) + seq![
            here.at(here.depth + 1),
        ] + stmt_sites(*body, here) + seq![here],
    }
}

/// The sites of the code of statements that starts at `here`.
pub open spec fn stmts_sites(stmts: Seq<StmtView>, here: Site) -> Seq<Site>
    decreases stmts,
{
    if stmts.len() == 0 {
        Seq::empty()
    } else {
        stmt_sites(stmts[0], here) + stmts_sites(stmts.drop_first(), here)
    }
}

/// The site of the first instruction of the block that starts at `start`.
pub open spec fn block_site(
    b: BlockView,
    start: int,
    parent: int,
    level: int,
    data_offset: int,
) -> Site {
    Site { scope: start, parent, level, frame: data_offset + b.vars.len(), depth: -1 }
}

/// The sites of the code of a block that starts at the address `start`.
pub open spec fn block_sites(
    b: BlockView,
    start: int,
    parent: int,
    level: int,
    data_offset: int,
) -> Seq<Site>
    decreases b,
{
    let me = block_site(b, start, parent, level, data_offset);
    seq![me] + procs_sites(b.procs, start + 1, start, level + 1) + seq![me] + stmt_sites(
        b.stmt,
        me.at(0),
    ) + seq![me.at(0)]
}

/// The sites of the code of procedures, the first of which starts at the
/// address `start`.
pub open spec fn procs_sites(procs: Seq<ProcView>, start: int, parent: int, level: int) -> Seq<Site>
    decreases procs,
{
    if procs.len() == 0 {
        Seq::empty()
    } else {
        let first = block_sites(procs[0].body, start, parent, level, DATA_OFFSET as int);
        first + procs_sites(procs.drop_first(), start + first.len(), parent, level)
    }
}

/// Whether the shape `g` has the sites `sites` from the address `n` on.
pub open spec fn placed(g: Seq<Site>, n: int, sites: Seq<Site>) -> bool {
    &&& 0 <= n
    &&& n + sites.len() <= g.len()
    &&& forall|i: int| 0 <= i < sites.len() ==> g[n + i] == #[trigger] sites[i]
}

/// Whether the shape `g` has the sites `sites` from the address `n` on,
/// and the site `next` behind them.
pub open spec fn placed_then(g: Seq<Site>, n: int, sites: Seq<Site>, next: Site) -> bool {
    &&& placed(g, n, sites)
    &&& n + sites.len() < g.len()
    &&& g[n + sites.len()] == next
}

proof fn lemma_placed_split(g: Seq<Site>, n: int, a: Seq<Site>, b: Seq<Site>)
    requires
        placed(g, n, a + b),
    ensures
        placed(g, n, a),
        placed(g, n + a.len(), b),
{
    let ab = a + b;
    assert forall|i: int| 0 <= i < a.len() implies g[n + i] == #[trigger] a[i] by {
        assert(ab[i] == a[i]);
    }
    assert forall|i: int| 0 <= i < b.len() implies g[n + a.len() + i] == #[trigger] b[i] by {
        assert(ab[a.len() + i] == b[i]);
    }
}

/// Whether the site `here` names a scope of the shape `g`.
pub open spec fn here_ok(g: Seq<Site>, here: Site) -> bool {
    &&& 0 <= here.scope < g.len()
    &&& g[here.scope] == here.at(-1)
    &&& here.frame >= DATA_OFFSET
    &&& 0 <= here.level <= u8::MAX
    &&& if here.level == 0 {
        here.scope == 0 && here.parent == -1
    } else {
        &&& here.scope > 0
        &&& 0 <= here.parent < g.len()
        &&& g[here.parent].scope == here.parent
        &&& g[here.parent].level == here.level - 1
    }
}

/// Whether the procedure at the address `a` can be called from the scope
/// of `here` with the level delta `l`.
pub open spec fn proc_ok(g: Seq<Site>, here: Site, l: int, a: int) -> bool {
    &&& 0 <= l <= here.level
    &&& 1 <= a < g.len()
    &&& g[a].scope == a
    &&& g[a].depth == -1
    &&& g[a].level >= 1
    &&& g[a].parent == ancestor(g, here.scope, l as nat)
}

/// Whether the entry is one of a block that encloses the scope of `here`,
/// and the shape `g` has what the entry stands for.
pub open spec fn entry_ok(g: Seq<Site>, e: EntryView, here: Site) -> bool {
    match e {
        EntryView::Const { .. } => true,
        EntryView::Var { level, offset, .. } => level <= here.level && var_ok(
            g,
            here,
            here.level - level,
            offset as int,
        ),
        EntryView::Proc { level, addr, .. } => level <= here.level && proc_ok(
            g,
            here,
            here.level - level,
            addr as int,
        ),
    }
}

pub open spec fn table_ok(g: Seq<Site>, table: Seq<EntryView>, here: Site) -> bool {
    forall|i: int| 0 <= i < table.len() ==> entry_ok(g, #[trigger] table[i], here)
}

/// Whether the instructions `from..to` of `code` keep to the shape `g`.
pub open spec fn seg_ok(code: Seq<Instr>, g: Seq<Site>, from: int, to: int) -> bool {
    &&& 0 <= from <= to <= code.len()
    &&& to <= g.len()
    &&& forall|pc: int| from <= pc < to ==> ok_at(#[trigger] code[pc], g, pc) && site_wf(g, pc)
}

proof fn lemma_seg_agree(c1: Seq<Instr>, c2: Seq<Instr>, g: Seq<Site>, from: int, to: int)
    requires
        seg_ok(c1, g, from, to),
        to <= c2.len(),
        forall|pc: int| from <= pc < to ==> c1[pc] == c2[pc],
    ensures
        seg_ok(c2, g, from, to),
{
    assert forall|pc: int| from <= pc < to implies ok_at(#[trigger] c2[pc], g, pc) && site_wf(
        g,
        pc,
    ) by {
        assert(ok_at(c1[pc], g, pc));
    }
}

/// Two segments that keep to the shape, one behind the other, are one.
proof fn lemma_seg_join(c: Seq<Instr>, g: Seq<Site>, from: int, mid: int, to: int)
    requires
        seg_ok(c, g, from, mid),
        seg_ok(c, g, mid, to),
    ensures
        seg_ok(c, g, from, to),
{
}

/// What is resolved is an entry of the table.
proof fn lemma_resolved_ok(g: Seq<Site>, table: Seq<EntryView>, here: Site, name: Seq<char>)
    requires
        table_ok(g, table, here),
    ensures
        resolve(table, name) matches Some(e) ==> entry_ok(g, e, here),
{
    lemma_resolve_is_latest(table, name);
}

/// A site in the body of the scope of `here` fits into the block structure.
proof fn lemma_body_site_wf(g: Seq<Site>, here: Site, pc: int, d: int)
    requires
        here_ok(g, here),
        0 <= pc < g.len(),
        g[pc] == here.at(d),
        d >= -1,
    ensures
        site_wf(g, pc),
{
}

/// One instruction that is emitted at a site in the body of a scope.
proof fn lemma_emit_shaped(code: Seq<Instr>, g: Seq<Site>, here: Site, instr: Instr, from: int)
    requires
        here_ok(g, here),
        here.depth >= -1,
        seg_ok(code, g, from, code.len() as int),
        code.len() < g.len(),
        g[code.len() as int] == here,
        ok_at(instr, g, code.len() as int),
    ensures
        emit(code, instr) matches Ok(c) ==> seg_ok(c, g, from, c.len() as int) && c.len()
            == code.len() + 1 && extends(code, c),
{
    if let Ok(c) = emit(code, instr) {
        lemma_body_site_wf(g, here, code.len() as int, here.depth);
        assert forall|pc: int| from <= pc < c.len() implies ok_at(#[trigger] c[pc], g, pc)
            && site_wf(g, pc) by {
            if pc < code.len() {
                assert(c[pc] == code[pc]);
                assert(ok_at(code[pc], g, pc));
            }
        }
    }
}

/// The code of an expression keeps to its sites, and leaves the stack one
/// deeper.
proof fn lemma_expr_shaped(
    e: ExprView,
    table: Seq<EntryView>,
    level: u8,
    code: Seq<Instr>,
    g: Seq<Site>,
    here: Site,
    from: int,
)
    requires
        here_ok(g, here),
        here.level == level,
        here.depth >= 0,
        table_ok(g, table, here),
        seg_ok(code, g, from, code.len() as int),
        placed_then(g, code.len() as int, expr_sites(e, here), here.at(here.depth + 1)),
    ensures
        expr_code(e, table, level, code) matches Ok(c) ==> c.len() == code.len() + expr_sites(
            e,
            here,
        ).len() && c.len() > code.len() && seg_ok(c, g, from, c.len() as int),
    decreases e,
{
    let n = code.len() as int;
    let up = here.at(here.depth + 1);
    match e {
        ExprView::Num(v) => {
            assert(expr_sites(e, here)[0] == here);
            lemma_emit_shaped(code, g, here, lit(v), from);
        },
        ExprView::Unary { op, expr } => {
            let inner = expr_sites(*expr, here);
            let tail = if op == UnOp::Neg {
                seq![up]
            } else {
                Seq::empty()
            };
            lemma_placed_split(g, n, inner, tail);
            if op == UnOp::Neg {
                assert(tail[0] == up);
                assert(g[n + inner.len()] == up);
            } else {
                assert(inner + tail =~= inner);
            }
            lemma_expr_shaped(*expr, table, level, code, g, here, from);
            if let Ok(c) = expr_code(*expr, table, level, code) {
                if op == UnOp::Neg {
                    lemma_emit_shaped(c, g, up, plain(OpCode::Math(Math::Neg)), from);
                }
            }
        },
        ExprView::Binary { op, lhs, rhs } => {
            let left = expr_sites(*lhs, here);
            let right = expr_sites(*rhs, up);
            let last = here.at(here.depth + 2);
            lemma_placed_split(g, n, left + right, seq![last]);
            lemma_placed_split(g, n, left, right);
            assert(seq![last][0] == last);
            lemma_expr_pushes_one(*lhs, table, level, code);
            if let Ok(c1) = expr_code(*lhs, table, level, code) {
                lemma_expr_pushes_one(*rhs, table, level, c1);
                if let Ok(c2) = expr_code(*rhs, table, level, c1) {
                    lemma_right_starts(*rhs, table, level, c1, up);
                    assert(right[0] == up);
                    lemma_expr_shaped(*lhs, table, level, code, g, here, from);
                    lemma_expr_shaped(*rhs, table, level, c1, g, up, from);
                    lemma_emit_shaped(
                        c2,
                        g,
                        last,
                        plain(OpCode::Math(crate::schedule::bin_math(op))),
                        from,
                    );
                }
            }
        },
        ExprView::Name(name) => {
            assert(expr_sites(e, here)[0] == here);
            lemma_resolved_ok(g, table, here, name);
            match resolve(table, name) {
                Some(EntryView::Const { value, .. }) => {
                    lemma_emit_shaped(code, g, here, lit(value), from);
                },
                Some(EntryView::Var { level: declared, offset, .. }) => {
                    lemma_emit_shaped(
                        code,
                        g,
                        here,
                        Instr { opcode: OpCode::Load, l: delta(level, declared), a: offset },
                        from,
                    );
                },
                _ => {},
            }
        },
        ExprView::Invalid => {},
    }
}

/// The sites of an expression that can be compiled start with the site
/// where the expression starts.
proof fn lemma_right_starts(
    e: ExprView,
    table: Seq<EntryView>,
    level: u8,
    code: Seq<Instr>,
    here: Site,
)
    requires
        expr_code(e, table, level, code) is Ok,
    ensures
        expr_sites(e, here).len() > 0,
        expr_sites(e, here)[0] == here,
    decreases e,
{
    match e {
        ExprView::Unary { op, expr } => {
            lemma_right_starts(*expr, table, level, code, here);
        },
        ExprView::Binary { op, lhs, rhs } => {
            lemma_right_starts(*lhs, table, level, code, here);
        },
        _ => {},
    }
}

/// The sites of a condition that can be compiled start with the site
/// where the condition starts.
proof fn lemma_cond_starts(
    c: CondView,
    table: Seq<EntryView>,
    level: u8,
    code: Seq<Instr>,
    here: Site,
)
    requires
        cond_code(c, table, level, code) is Ok,
    ensures
        cond_sites(c, here).len() > 0,
        cond_sites(c, here)[0] == here,
{
    match c {
        CondView::Odd(e) => {
            lemma_right_starts(e, table, level, code, here);
        },
        CondView::Bin { op, lhs, rhs } => {
            lemma_right_starts(lhs, table, level, code, here);
        },
    }
}

/// The sites of a statement that can be compiled start with the site
/// where the statement starts, if the statement has code at all.
proof fn lemma_stmt_starts(
    s: StmtView,
    table: Seq<EntryView>,
    level: u8,
    code: Seq<Instr>,
    here: Site,
)
    requires
        stmt_code(s, table, level, code) is Ok,
    ensures
        stmt_sites(s, here).len() > 0 ==> stmt_sites(s, here)[0] == here,
    decreases s,
{
    match s {
        StmtView::Assign { lhs, rhs } => {
            lemma_right_starts(rhs, table, level, code, here);
        },
        StmtView::Write { expr } => {
            lemma_right_starts(expr, table, level, code, here);
        },
        StmtView::SubBlock { stmts } => {
            lemma_stmts_starts(stmts, table, level, code, here);
        },
        StmtView::If { head, body } => {
            lemma_cond_starts(head, table, level, code, here);
        },
        StmtView::While { head, body } => {
            lemma_cond_starts(head, table, level, code, here);
        },
        _ => {},
    }
}

proof fn lemma_stmts_starts(
    stmts: Seq<StmtView>,
    table: Seq<EntryView>,
    level: u8,
    code: Seq<Instr>,
    here: Site,
)
    requires
        stmts_code(stmts, table, level, code) is Ok,
    ensures
        stmts_sites(stmts, here).len() > 0 ==> stmts_sites(stmts, here)[0] == here,
    decreases stmts,
{
    if stmts.len() > 0 {
        lemma_stmt_starts(stmts[0], table, level, code, here);
        let c = stmt_code(stmts[0], table, level, code)->Ok_0;
        lemma_stmts_starts(stmts.drop_first(), table, level, c, here);
    }
}

/// The code of a condition keeps to its sites, and leaves the stack one
/// deeper.
proof fn lemma_cond_shaped(
    c: CondView,
    table: Seq<EntryView>,
    level: u8,
    code: Seq<Instr>,
    g: Seq<Site>,
    here: Site,
    from: int,
)
    requires
        here_ok(g, here),
        here.level == level,
        here.depth >= 0,
        table_ok(g, table, here),
        seg_ok(code, g, from, code.len() as int),
        placed_then(g, code.len() as int, cond_sites(c, here), here.at(here.depth + 1)),
    ensures
        cond_code(c, table, level, code) matches Ok(after) ==> after.len() == code.len()
            + cond_sites(c, here).len() && seg_ok(after, g, from, after.len() as int),
{
    let n = code.len() as int;
    let up = here.at(here.depth + 1);
    match c {
        CondView::Odd(e) => {
            lemma_placed_split(g, n, expr_sites(e, here), seq![up]);
            assert(seq![up][0] == up);
            lemma_expr_shaped(e, table, level, code, g, here, from);
            if let Ok(c1) = expr_code(e, table, level, code) {
                lemma_emit_shaped(c1, g, up, plain(OpCode::Math(Math::Odd)), from);
            }
        },
        CondView::Bin { op, lhs, rhs } => {
            let left = expr_sites(lhs, here);
            let right = expr_sites(rhs, up);
            let last = here.at(here.depth + 2);
            lemma_placed_split(g, n, left + right, seq![last]);
            lemma_placed_split(g, n, left, right);
            assert(seq![last][0] == last);
            if let Ok(c1) = expr_code(lhs, table, level, code) {
                if let Ok(c2) = expr_code(rhs, table, level, c1) {
                    lemma_right_starts(rhs, table, level, c1, up);
                    assert(right[0] == up);
                    lemma_expr_shaped(lhs, table, level, code, g, here, from);
                    lemma_expr_shaped(rhs, table, level, c1, g, up, from);
                    lemma_emit_shaped(
                        c2,
                        g,
                        last,
                        plain(OpCode::Math(crate::schedule::cond_math(op))),
                        from,
                    );
                }
            }
        },
    }
}

/// The store into a variable keeps to its site, and leaves the stack one
/// less deep.
proof fn lemma_store_shaped(
    name: Seq<char>,
    table: Seq<EntryView>,
    level: u8,
    code: Seq<Instr>,
    g: Seq<Site>,
    here: Site,
    from: int,
)
    requires
        here_ok(g, here),
        here.level == level,
        here.depth == 1,
        table_ok(g, table, here),
        seg_ok(code, g, from, code.len() as int),
        placed_then(g, code.len() as int, seq![here], here.at(0)),
    ensures
        store_code(name, table, level, code) matches Ok(c) ==> c.len() == code.len() + 1
            && seg_ok(c, g, from, c.len() as int),
{
    assert(seq![here][0] == here);
    lemma_resolved_ok(g, table, here, name);
    if let Some(EntryView::Var { level: declared, offset, .. }) = resolve(table, name) {
        lemma_emit_shaped(
            code,
            g,
            here,
            Instr { opcode: OpCode::Store, l: delta(level, declared), a: offset },
            from,
        );
    }
}

/// A table that fits a site fits it at every depth.
proof fn lemma_table_at(g: Seq<Site>, table: Seq<EntryView>, here: Site, d: int)
    requires
        table_ok(g, table, here),
    ensures
        table_ok(g, table, here.at(d)),
{
    assert forall|i: int| 0 <= i < table.len() implies entry_ok(
        g,
        #[trigger] table[i],
        here.at(d),
    ) by {
        assert(entry_ok(g, table[i], here));
    }
}

/// The code of a statement keeps to its sites, and leaves the stack as
/// deep as it found it.
proof fn lemma_stmt_shaped(
    s: StmtView,
    table: Seq<EntryView>,
    level: u8,
    code: Seq<Instr>,
    g: Seq<Site>,
    here: Site,
    from: int,
)
    requires
        here_ok(g, here),
        here.level == level,
        here.depth == 0,
        table_ok(g, table, here),
        1 <= code.len() <= CODE_SIZE,
        seg_ok(code, g, from, code.len() as int),
        placed_then(g, code.len() as int, stmt_sites(s, here), here),
    ensures
        stmt_code(s, table, level, code) matches Ok(c) ==> c.len() == code.len() + stmt_sites(
            s,
            here,
        ).len() && seg_ok(c, g, from, c.len() as int),
    decreases s, 1int,
{
    let n = code.len() as int;
    let up = here.at(1);
    lemma_table_at(g, table, here, 1);
    lemma_stmt_extends(s, table, level, code);
    match s {
        StmtView::Assign { lhs, rhs } => {
            lemma_placed_split(g, n, expr_sites(rhs, here), seq![up]);
            assert(seq![up][0] == up);
            lemma_expr_shaped(rhs, table, level, code, g, here, from);
            if let Ok(c) = expr_code(rhs, table, level, code) {
                lemma_store_shaped(lhs, table, level, c, g, up, from);
            }
        },
        StmtView::Call { name } => {
            assert(stmt_sites(s, here)[0] == here);
            lemma_resolved_ok(g, table, here, name);
            if let Some(EntryView::Proc { level: declared, addr, .. }) = resolve(table, name) {
                lemma_emit_shaped(
                    code,
                    g,
                    here,
                    Instr { opcode: OpCode::Call, l: delta(level, declared), a: addr },
                    from,
                );
            }
        },
        StmtView::Read { name } => {
            assert(stmt_sites(s, here)[0] == here);
            assert(stmt_sites(s, here)[1] == up);
            lemma_emit_shaped(code, g, here, plain(OpCode::Read), from);
            if let Ok(c) = emit(code, plain(OpCode::Read)) {
                lemma_store_shaped(name, table, level, c, g, up, from);
            }
        },
        StmtView::Write { expr } => {
            lemma_placed_split(g, n, expr_sites(expr, here), seq![up]);
            assert(seq![up][0] == up);
            lemma_expr_shaped(expr, table, level, code, g, here, from);
            if let Ok(c) = expr_code(expr, table, level, code) {
                lemma_emit_shaped(c, g, up, plain(OpCode::Write), from);
            }
        },
        StmtView::SubBlock { stmts } => {
            lemma_stmts_shaped(stmts, table, level, code, g, here, from);
        },
        StmtView::If { head, body } => {
            lemma_if_shaped(s, table, level, code, g, here, from);
        },
        StmtView::While { head, body } => {
            lemma_while_shaped(s, table, level, code, g, here, from);
        },
    }
}

/// The code of an `if` keeps to its sites.
proof fn lemma_if_shaped(
    s: StmtView,
    table: Seq<EntryView>,
    level: u8,
    code: Seq<Instr>,
    g: Seq<Site>,
    here: Site,
    from: int,
)
    requires
        s is If,
        here_ok(g, here),
        here.level == level,
        here.depth == 0,
        table_ok(g, table, here),
        1 <= code.len() <= CODE_SIZE,
        seg_ok(code, g, from, code.len() as int),
        placed_then(g, code.len() as int, stmt_sites(s, here), here),
    ensures
        stmt_code(s, table, level, code) matches Ok(c) ==> c.len() == code.len() + stmt_sites(
            s,
            here,
        ).len() && seg_ok(c, g, from, c.len() as int),
    decreases s, 0int,
{
    let n = code.len() as int;
    let up = here.at(1);
    lemma_table_at(g, table, here, 1);
    lemma_stmt_extends(s, table, level, code);
    if let StmtView::If { head, body } = s {
    let head_sites = cond_sites(head, here);
        let body_sites = stmt_sites(*body, here);
        lemma_placed_split(g, n, head_sites + seq![up], body_sites);
        lemma_placed_split(g, n, head_sites, seq![up]);
        assert(seq![up][0] == up);
        lemma_cond_shaped(head, table, level, code, g, here, from);
        lemma_cond_extends(head, table, level, code);
        if let Ok(c) = cond_code(head, table, level, code) {
            let j = c.len() as int;
            if let Ok(c2) = emit(c, plain(OpCode::JumpIfZero)) {
                lemma_stmt_extends(*body, table, level, c2);
                if let Ok(c3) = stmt_code(*body, table, level, c2) {
                    lemma_stmt_starts(*body, table, level, c2, here);
                    if body_sites.len() > 0 {
                        assert(g[j + 1] == body_sites[0]);
                    }
                    lemma_stmt_shaped(*body, table, level, c2, g, here, j + 1);
                    let c4 = close_jump(c3, j);
                    lemma_seg_agree(c, c4, g, from, j);
                    lemma_seg_agree(c3, c4, g, j + 1, c3.len() as int);
                    lemma_body_site_wf(g, here, j, 1);
                    assert(c4[j] == Instr {
                        opcode: OpCode::JumpIfZero,
                        l: 0,
                        a: c3.len() as u16,
                    });
                    assert(ok_at(c4[j], g, j));
                    assert(seg_ok(c4, g, j, j + 1));
                    lemma_seg_join(c4, g, from, j, j + 1);
                    lemma_seg_join(c4, g, from, j + 1, c4.len() as int);
                }
            }
        }
    }
}

/// The code of a `while` keeps to its sites.
proof fn lemma_while_shaped(
    s: StmtView,
    table: Seq<EntryView>,
    level: u8,
    code: Seq<Instr>,
    g: Seq<Site>,
    here: Site,
    from: int,
)
    requires
        s is While,
        here_ok(g, here),
        here.level == level,
        here.depth == 0,
        table_ok(g, table, here),
        1 <= code.len() <= CODE_SIZE,
        seg_ok(code, g, from, code.len() as int),
        placed_then(g, code.len() as int, stmt_sites(s, here), here),
    ensures
        stmt_code(s, table, level, code) matches Ok(c) ==> c.len() == code.len() + stmt_sites(
            s,
            here,
        ).len() && seg_ok(c, g, from, c.len() as int),
    decreases s, 0int,
{
    let n = code.len() as int;
    let up = here.at(1);
    lemma_table_at(g, table, here, 1);
    lemma_stmt_extends(s, table, level, code);
    if let StmtView::While { head, body } = s {
    let head_sites = cond_sites(head, here);
        let body_sites = stmt_sites(*body, here);
        lemma_placed_split(g, n, head_sites + seq![up] + body_sites, seq![here]);
        lemma_placed_split(g, n, head_sites + seq![up], body_sites);
        lemma_placed_split(g, n, head_sites, seq![up]);
        assert(seq![up][0] == up);
        assert(seq![here][0] == here);
        lemma_cond_shaped(head, table, level, code, g, here, from);
        lemma_cond_extends(head, table, level, code);
        if let Ok(c) = cond_code(head, table, level, code) {
            let j = c.len() as int;
            lemma_cond_starts(head, table, level, code, here);
            assert(g[n] == head_sites[0]);
            if let Ok(c2) = emit(c, plain(OpCode::JumpIfZero)) {
                lemma_stmt_extends(*body, table, level, c2);
                if let Ok(c3) = stmt_code(*body, table, level, c2) {
                    lemma_stmt_starts(*body, table, level, c2, here);
                    if body_sites.len() > 0 {
                        assert(g[j + 1] == body_sites[0]);
                    }
                    lemma_stmt_shaped(*body, table, level, c2, g, here, j + 1);
                    let back = Instr { opcode: OpCode::Jump, l: 0, a: code.len() as u16 };
                    lemma_emit_shaped(c3, g, here, back, j + 1);
                    if let Ok(c4) = emit(c3, back) {
                        let c5 = close_jump(c4, j);
                        lemma_seg_agree(c, c5, g, from, j);
                        lemma_seg_agree(c4, c5, g, j + 1, c4.len() as int);
                        lemma_body_site_wf(g, here, j, 1);
                        assert(c5[j] == Instr {
                            opcode: OpCode::JumpIfZero,
                            l: 0,
                            a: c4.len() as u16,
                        });
                        assert(ok_at(c5[j], g, j));
                        assert(seg_ok(c5, g, j, j + 1));
                        lemma_seg_join(c5, g, from, j, j + 1);
                        lemma_seg_join(c5, g, from, j + 1, c5.len() as int);
                    }
                }
            }
        }
    }
}

/// The code of statements keeps to its sites.
proof fn lemma_stmts_shaped(
    stmts: Seq<StmtView>,
    table: Seq<EntryView>,
    level: u8,
    code: Seq<Instr>,
    g: Seq<Site>,
    here: Site,
    from: int,
)
    requires
        here_ok(g, here),
        here.level == level,
        here.depth == 0,
        table_ok(g, table, here),
        1 <= code.len() <= CODE_SIZE,
        seg_ok(code, g, from, code.len() as int),
        placed_then(g, code.len() as int, stmts_sites(stmts, here), here),
    ensures
        stmts_code(stmts, table, level, code) matches Ok(c) ==> c.len() == code.len()
            + stmts_sites(stmts, here).len() && seg_ok(c, g, from, c.len() as int),
    decreases stmts, 0int,
{
    let n = code.len() as int;
    if stmts.len() > 0 {
        let first = stmt_sites(stmts[0], here);
        let rest = stmts_sites(stmts.drop_first(), here);
        lemma_placed_split(g, n, first, rest);
        lemma_stmt_extends(stmts[0], table, level, code);
        if let Ok(c) = stmt_code(stmts[0], table, level, code) {
            if let Ok(c2) = stmts_code(stmts.drop_first(), table, level, c) {
                lemma_stmts_starts(stmts.drop_first(), table, level, c, here);
                if rest.len() > 0 {
                    assert(g[n + first.len()] == rest[0]);
                }
                lemma_stmt_shaped(stmts[0], table, level, code, g, here, from);
                lemma_stmts_shaped(stmts.drop_first(), table, level, c, g, here, from);
            }
        }
    }
}

/// A table that fits a scope fits the scopes of the procedures that the
/// scope declares: what is one level out from there is the scope itself.
proof fn lemma_table_into(g: Seq<Site>, table: Seq<EntryView>, me: Site, inner: Site)
    requires
        table_ok(g, table, me),
        here_ok(g, inner),
        inner.parent == me.scope,
        inner.level == me.level + 1,
    ensures
        table_ok(g, table, inner),
{
    assert forall|i: int| 0 <= i < table.len() implies entry_ok(g, #[trigger] table[i], inner) by {
        assert(entry_ok(g, table[i], me));
        match table[i] {
            EntryView::Var { level, offset, .. } => {
                let l = me.level - level;
                assert(ancestor(g, inner.scope, (l + 1) as nat) == ancestor(
                    g,
                    me.scope,
                    l as nat,
                ));
            },
            EntryView::Proc { level, addr, .. } => {
                let l = me.level - level;
                assert(ancestor(g, inner.scope, (l + 1) as nat) == ancestor(
                    g,
                    me.scope,
                    l as nat,
                ));
            },
            _ => {},
        }
    }
}

/// The sites of a block are at least those of its jump, its allocation
/// and its return.
proof fn lemma_block_sites_len(b: BlockView, start: int, parent: int, level: int, off: int)
    ensures
        block_sites(b, start, parent, level, off).len() >= 3,
        block_sites(b, start, parent, level, off)[0] == block_site(b, start, parent, level, off),
{
}

/// The code of procedures keeps to its sites, and their entries fit the
/// scope that declares them.
proof fn lemma_procs_shaped(
    procs: Seq<ProcView>,
    table: Seq<EntryView>,
    level: u8,
    code: Seq<Instr>,
    g: Seq<Site>,
    me: Site,
)
    requires
        here_ok(g, me),
        me.level == level,
        table_ok(g, table, me),
        1 <= code.len() <= CODE_SIZE,
        placed(g, code.len() as int, procs_sites(procs, code.len() as int, me.scope, level + 1)),
    ensures
        procs_code(procs, table, level, code) matches Ok(laid) ==> laid.code.len() == code.len()
            + procs_sites(procs, code.len() as int, me.scope, level + 1).len() && seg_ok(
            laid.code,
            g,
            code.len() as int,
            laid.code.len() as int,
        ) && table_ok(g, laid.table, me),
    decreases procs, 0int,
{
    let n = code.len() as int;
    if procs.len() > 0 && level < u8::MAX {
        let body = procs[0].body;
        let first = block_sites(body, n, me.scope, level + 1, DATA_OFFSET as int);
        let rest = procs_sites(procs.drop_first(), n + first.len(), me.scope, level + 1);
        let inner = block_site(body, n, me.scope, level + 1, DATA_OFFSET as int);
        lemma_placed_split(g, n, first, rest);
        lemma_block_sites_len(body, n, me.scope, level + 1, DATA_OFFSET as int);
        assert(g[n] == first[0]);
        let entered = table.push(proc_entry(procs[0].name, level, code));
        assert(table_ok(g, entered, me)) by {
            assert forall|i: int| 0 <= i < entered.len() implies entry_ok(
                g,
                #[trigger] entered[i],
                me,
            ) by {
                if i < table.len() {
                    assert(entered[i] == table[i]);
                    assert(entry_ok(g, table[i], me));
                }
            }
        }
        lemma_table_into(g, entered, me, inner);
        lemma_block_extends(body, entered, (level + 1) as u8, DATA_OFFSET as u16, code);
        lemma_block_shaped(body, entered, (level + 1) as u8, DATA_OFFSET as u16, code, g, me.scope);
        if let Ok(laid) = block_code(body, entered, (level + 1) as u8, DATA_OFFSET as u16, code) {
            lemma_procs_extends(procs.drop_first(), entered, level, laid.code);
            lemma_procs_shaped(procs.drop_first(), entered, level, laid.code, g, me);
            if let Ok(done) = procs_code(procs.drop_first(), entered, level, laid.code) {
                lemma_seg_agree(laid.code, done.code, g, n, laid.code.len() as int);
            }
        }
    }
}

/// The code of a block keeps to its sites.
proof fn lemma_block_shaped(
    b: BlockView,
    table: Seq<EntryView>,
    level: u8,
    data_offset: u16,
    code: Seq<Instr>,
    g: Seq<Site>,
    parent: int,
)
    requires
        here_ok(g, block_site(b, code.len() as int, parent, level as int, data_offset as int)),
        table_ok(
            g,
            table,
            block_site(b, code.len() as int, parent, level as int, data_offset as int),
        ),
        data_offset >= DATA_OFFSET,
        code.len() <= CODE_SIZE,
        placed(
            g,
            code.len() as int,
            block_sites(b, code.len() as int, parent, level as int, data_offset as int),
        ),
    ensures
        block_code(b, table, level, data_offset, code) matches Ok(laid) ==> laid.code.len()
            == code.len() + block_sites(
            b,
            code.len() as int,
            parent,
            level as int,
            data_offset as int,
        ).len() && seg_ok(laid.code, g, code.len() as int, laid.code.len() as int),
    decreases b, 1int,
{
    let n = code.len() as int;
    let me = block_site(b, n, parent, level as int, data_offset as int);
    let body = me.at(0);
    let inner = procs_sites(b.procs, n + 1, n, level + 1);
    let stmt = stmt_sites(b.stmt, body);
    lemma_placed_split(g, n, seq![me] + inner + seq![me] + stmt, seq![body]);
    lemma_placed_split(g, n, seq![me] + inner + seq![me], stmt);
    lemma_placed_split(g, n, seq![me] + inner, seq![me]);
    lemma_placed_split(g, n, seq![me], inner);
    assert(seq![me][0] == me);
    assert(seq![body][0] == body);
    lemma_block_extends(b, table, level, data_offset, code);
    if let Ok(c0) = emit(code, plain(OpCode::Jump)) {
        if data_offset + b.vars.len() <= u16::MAX {
            let declared = table + const_entries(b.consts) + var_entries(
                b.vars,
                level,
                data_offset,
            );
            assert(table_ok(g, declared, me)) by {
                assert forall|i: int| 0 <= i < declared.len() implies entry_ok(
                    g,
                    #[trigger] declared[i],
                    me,
                ) by {
                    if i < table.len() {
                        assert(declared[i] == table[i]);
                        assert(entry_ok(g, table[i], me));
                    } else if i < table.len() + b.consts.len() {
                        assert(declared[i] == const_entries(b.consts)[i - table.len()]);
                    } else {
                        let k = i - table.len() - b.consts.len();
                        assert(declared[i] == var_entries(b.vars, level, data_offset)[k]);
                        assert(ancestor(g, me.scope, 0) == me.scope);
                    }
                }
            }
            lemma_procs_extends(b.procs, declared, level, c0);
            lemma_procs_shaped(b.procs, declared, level, c0, g, me);
            if let Ok(laid) = procs_code(b.procs, declared, level, c0) {
                let entry = laid.code.len() as int;
                let c1 = close_jump(laid.code, n);
                let inc = Instr {
                    opcode: OpCode::IncTop,
                    l: 0,
                    a: (data_offset + b.vars.len()) as u16,
                };
                if let Ok(c2) = emit(c1, inc) {
                    lemma_stmt_extends(b.stmt, laid.table, level, c2);
                    if let Ok(c3) = stmt_code(b.stmt, laid.table, level, c2) {
                        if let Ok(c4) = emit(c3, plain(OpCode::Return)) {
                            lemma_stmt_starts(b.stmt, laid.table, level, c2, body);
                            if stmt.len() > 0 {
                                assert(g[entry + 1] == stmt[0]);
                            }
                            lemma_table_at(g, laid.table, me, 0);
                            lemma_stmt_shaped(
                                b.stmt,
                                laid.table,
                                level,
                                c2,
                                g,
                                body,
                                entry + 1,
                            );
                            // the jump over the procedures
                            lemma_body_site_wf(g, me, n, -1);
                            assert(c4[n] == Instr {
                                opcode: OpCode::Jump,
                                l: 0,
                                a: entry as u16,
                            });
                            assert(ok_at(c4[n], g, n));
                            assert(seg_ok(c4, g, n, n + 1));
                            // the procedures
                            lemma_seg_agree(laid.code, c4, g, n + 1, entry);
                            // the allocation of the frame
                            lemma_body_site_wf(g, me, entry, -1);
                            assert(c4[entry] == inc);
                            assert(ok_at(c4[entry], g, entry));
                            assert(seg_ok(c4, g, entry, entry + 1));
                            // the statement
                            lemma_seg_agree(c3, c4, g, entry + 1, c3.len() as int);
                            // the return
                            lemma_body_site_wf(g, me, c3.len() as int, 0);
                            assert(ok_at(c4[c3.len() as int], g, c3.len() as int));
                            assert(seg_ok(c4, g, c3.len() as int, c4.len() as int));
                            lemma_seg_join(c4, g, n, n + 1, entry);
                            lemma_seg_join(c4, g, n, entry, entry + 1);
                            lemma_seg_join(c4, g, n, entry + 1, c3.len() as int);
                            lemma_seg_join(c4, g, n, c3.len() as int, c4.len() as int);
                        }
                    }
                }
            }
        }
    }
}

/// The shape of the chunk of a program.
pub open spec fn program_shape(p: ProgramView) -> Seq<Site> {
    block_sites(p.block, 0, -1, 0, DATA_OFFSET as int)
}

/// The chunk of a program keeps to the shape of the program: every
/// instruction finds the stack as deep as it needs it, every variable that
/// is loaded or stored exists in a frame that is on the stack, and every
/// call and jump goes to code that expects the stack as it is.
pub proof fn lemma_program_shaped(p: ProgramView)
    ensures
        program_code(p) matches Ok(code) ==> shaped(code, program_shape(p)),
{
    let g = program_shape(p);
    let me = block_site(p.block, 0, -1, 0, DATA_OFFSET as int);
    lemma_block_sites_len(p.block, 0, -1, 0, DATA_OFFSET as int);
    lemma_block_shaped(p.block, Seq::empty(), 0, DATA_OFFSET as u16, Seq::empty(), g, -1);
    if let Ok(code) = program_code(p) {
        assert forall|pc: int| 0 <= pc < g.len() implies site_wf(g, pc) by {
            assert(ok_at(code[pc], g, pc) && site_wf(g, pc));
        }
    }
}

/// The stack effect of a program is 0: when the machine halts on the chunk
/// of a program, the top of the stack is where it was at the start. The
/// frame of the outermost block is dropped, and nothing is left.
pub proof fn lemma_halts_with_empty_stack(p: ProgramView, input: Seq<i32>, steps: nat)
    ensures
        program_code(p) matches Ok(code) ==> ({
            let (end, ending) = Run::initial().run(load(code), input, steps);
            ending == Ending::Halted ==> end.machine.top == Machine::initial().top
        }),
{
    if let Ok(code) = program_code(p) {
        lemma_program_shaped(p);
        lemma_block_extends(p.block, Seq::empty(), 0, DATA_OFFSET as u16, Seq::empty());
        let g = program_shape(p);
        lemma_initial_disciplined(code, g);
        lemma_run_kept(
            code,
            g,
            Run::initial(),
            seq![Frame { base: 1, scope: 0, link: -1 }],
            input,
            steps,
        );
    }
}

/// The chunk of a program faults only where the stack is too small for
/// it or where it divides by zero: it never reaches below the stack,
/// never follows a link that is none, and never leaves its code.
pub proof fn lemma_faults_are_honest(p: ProgramView, input: Seq<i32>, steps: nat)
    ensures
        program_code(p) matches Ok(code) ==> (Run::initial().run(
            load(code),
            input,
            steps,
        ).1 matches Ending::Fault(kind) ==> honest(kind)),
{
    if let Ok(code) = program_code(p) {
        lemma_program_shaped(p);
        lemma_block_extends(p.block, Seq::empty(), 0, DATA_OFFSET as u16, Seq::empty());
        let g = program_shape(p);
        lemma_initial_disciplined(code, g);
        lemma_run_faults(
            code,
            g,
            Run::initial(),
            seq![Frame { base: 1, scope: 0, link: -1 }],
            input,
            steps,
        );
    }
}

} // verus!
