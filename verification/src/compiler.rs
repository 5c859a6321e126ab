//! The compiler: one pass over the syntax tree, which emits instructions
//! in execution order and resolves names by lexical level and frame offset.
use vstd::prelude::*;
use crate::ast::{
    StmtView, consts_view, lemma_block_view, lemma_sub_block_view, procs_view, stmts_view,
    vars_view, AssignStmt, BinOp, Block, CallStmt, Cond, CondOp, Const, Expr, IfStmt, Proc, Program,
    ReadStmt, Stmt, SubBlock, UnOp, Var, WhileStmt, WriteStmt,
};
use crate::bytecode::{Instr, OpCode};
use crate::codegen::{plain, CodeGen};
use crate::errors::{Error, ErrorKind, Result};
use crate::limits::DATA_OFFSET;
use crate::schedule::{
    block_code, call_code, cond_code, const_entries, emit, expr_code, lemma_procs_extends,
    lemma_stmt_extends, proc_entry, procs_code, stmt_code, stmts_code, store_code, var_entries,
    Code, Fault, Laid,
};
use crate::symbols::{find_entry, table_view, Entry, EntryView};

verus! {

pub struct Compiler<'a, C> {
    pub codegen: &'a mut C,
    pub table: Vec<Entry>,
    pub level: u8,
    /// The local relative stack offset where the procedure's data starts
    pub data_offset: u16,
}

/// Whether `after` is `before` with more entries behind it.
pub open spec fn grew(before: Seq<Entry>, after: Seq<Entry>) -> bool {
    &&& before.len() <= after.len()
    &&& forall|i: int| 0 <= i < before.len() ==> after[i] == before[i]
}

impl<'a, C: CodeGen> Compiler<'a, C> {
    /// The models of the entries of the table, oldest first.
    pub open spec fn entries(&self) -> Seq<EntryView> {
        table_view(self.table@)
    }

    /// The instructions emitted so far.
    pub open spec fn code(&self) -> Seq<Instr> {
        self.codegen.code()
    }

    /// No entry was declared deeper than the block that is being compiled.
    pub open spec fn wf(&self) -> bool {
        forall|i: int|
            0 <= i < self.table@.len() ==> (#[trigger] self.table@[i])@.level() <= self.level
    }

    /// Whether `after` and `r` are what compiling a construct with the
    /// outcome `outcome` leaves: the code of the outcome, or its fault as
    /// an error. The scope is as it was before.
    pub open spec fn done(&self, after: &Self, outcome: Code, r: Result<()>) -> bool {
        &&& after.table@ == self.table@
        &&& after.level == self.level
        &&& after.data_offset == self.data_offset
        &&& match outcome {
            Ok(c) => r is Ok && after.code() == c,
            Err(f) => r matches Err(e) && e.is(f.kind, f.subject),
        }
    }

    /// Whether `after` and `r` are what compiling declarations with the
    /// outcome `outcome` leaves: the code and the table of the outcome, or
    /// its fault as an error. The table only grows, and the level stays.
    /// What was emitted before a fault is not told.
    pub open spec fn declared(
        &self,
        after: &Self,
        outcome: std::result::Result<Laid, Fault>,
        r: Result<()>,
    ) -> bool {
        &&& grew(self.table@, after.table@)
        &&& after.level == self.level
        &&& match outcome {
            Ok(laid) => r is Ok && after.code() == laid.code && after.entries() == laid.table,
            Err(f) => r matches Err(e) && e.is(f.kind, f.subject),
        }
    }

    /// A compiler at level 0 with an empty table, which emits into `codegen`.
    pub fn new(codegen: &'a mut C) -> (r: Self)
        ensures
            r.code() == old(codegen).code(),
            *r.codegen == *old(codegen),
            *final(codegen) == *final(r.codegen),
            r.table@ == Seq::<Entry>::empty(),
            r.level == 0,
            r.data_offset == DATA_OFFSET,
            r.wf(),
    {
        Self { codegen, table: Vec::new(), level: 0, data_offset: DATA_OFFSET as u16 }
    }

    /// Compiles `program` behind the code that was emitted so far. The
    /// declarations of its block stay in the table, and its variables take
    /// the next offsets of the frame. The generator that the compiler was
    /// given stays the one that it emits into.
    pub fn compile(&mut self, program: &Program) -> (r: Result<()>)
        requires
            old(self).wf(),
        ensures
            final(self).wf(),
            *final(final(self).codegen) == *final(old(self).codegen),
            old(self).declared(
                final(self),
                block_code(
                    program@.block,
                    old(self).entries(),
                    old(self).level,
                    old(self).data_offset,
                    old(self).code(),
                ),
                r,
            ),
            r is Ok ==> final(self).data_offset == old(self).data_offset
                + program@.block.vars.len(),
    {
        self.compile_program(program)?;

        Ok(())
    }

    /// The most recent entry whose name is `query`.
    fn find_ident(&self, query: &str) -> (r: Option<&Entry>)
        requires
            self.wf(),
        ensures
            match crate::symbols::resolve(self.entries(), query@) {
                Some(entry) => r matches Some(e) && e@ == entry && e@.level() <= self.level,
                None => r is None,
            },
    {
        let r = find_entry(&self.table, query);
        proof {
            crate::symbols::lemma_resolve_is_latest(self.entries(), query@);
        }
        r
    }

    /// Compiles `body` as a scope of its own, one level deeper: what it
    /// declares is dropped at its end, also when it cannot be compiled.
    fn with_scope(&mut self, body: &Block) -> (r: Result<()>)
        requires
            old(self).wf(),
        ensures
            final(self).wf(),
            *final(final(self).codegen) == *final(old(self).codegen),
            old(self).done(
                final(self),
                if old(self).level == u8::MAX {
                    crate::schedule::fault(ErrorKind::TooDeep, Seq::empty())
                } else {
                    match block_code(
                        body@,
                        old(self).entries(),
                        (old(self).level + 1) as u8,
                        DATA_OFFSET as u16,
                        old(self).code(),
                    ) {
                        Ok(laid) => Ok(laid.code),
                        Err(f) => Err(f),
                    }
                },
                r,
            ),
        decreases body, 1int,
    {
        if self.level == u8::MAX {
            return Err(Error::new(ErrorKind::TooDeep));
        }
        let ident_len = self.table.len();
        let data_offset = self.data_offset;
        self.data_offset = DATA_OFFSET as u16;
        self.level += 1;

        let result = self.compile_block(body);

        self.level -= 1;
        self.data_offset = data_offset;
        // Identifiers are now out of scope.
        self.table.truncate(ident_len);
        assert(self.table@ =~= old(self).table@);

        result
    }

    fn compile_program(&mut self, program: &Program) -> (r: Result<()>)
        requires
            old(self).wf(),
        ensures
            final(self).wf(),
            *final(final(self).codegen) == *final(old(self).codegen),
            old(self).declared(
                final(self),
                block_code(
                    program@.block,
                    old(self).entries(),
                    old(self).level,
                    old(self).data_offset,
                    old(self).code(),
                ),
                r,
            ),
            r is Ok ==> final(self).data_offset == old(self).data_offset
                + program@.block.vars.len(),
    {
        self.compile_block(&program.block)
    }

    fn compile_block(&mut self, block: &Block) -> (r: Result<()>)
        requires
            old(self).wf(),
        ensures
            final(self).wf(),
            *final(final(self).codegen) == *final(old(self).codegen),
            old(self).declared(
                final(self),
                block_code(
                    block@,
                    old(self).entries(),
                    old(self).level,
                    old(self).data_offset,
                    old(self).code(),
                ),
                r,
            ),
            r is Ok ==> final(self).data_offset == old(self).data_offset + block@.vars.len(),
        decreases block, 0int,
    {
        proof {
            lemma_block_view(block);
        }
        let ghost start = self.code();
        // Interpreter has to jump over all the generated procedure
        // bodies to get to this block's statement.
        let index = self.codegen.reserve_jump()?;
        let ghost c0 = self.code();

        self.compile_consts(&block.consts)?;
        self.compile_vars(&block.vars)?;
        let ghost declared = self.entries();
        assert(declared =~= old(self).entries() + const_entries(block@.consts) + var_entries(
            block@.vars,
            old(self).level,
            old(self).data_offset,
        ));
        proof {
            lemma_procs_extends(block@.procs, declared, self.level, c0);
        }
        self.compile_procs(&block.procs)?;

        // Patch the starting address of this block's bytecode
        // into the jump instruction emitted at the beginning.
        let addr = self.codegen.len();
        self.codegen.patch_jump(index, #[verifier::truncate] (addr as u16))?;

        // The stack space required by a procedure is encoded
        // in this bytecode.
        self.codegen.emit_inc_top(self.data_offset)?;
        self.compile_stmt(&block.stmt)?;
        self.codegen.emit_return()?;

        Ok(())
    }

    fn compile_consts(&mut self, consts: &Vec<Const>) -> (r: Result<()>)
        requires
            old(self).wf(),
        ensures
            final(self).wf(),
            *final(final(self).codegen) == *final(old(self).codegen),
            r is Ok,
            grew(old(self).table@, final(self).table@),
            final(self).entries() == old(self).entries() + const_entries(consts_view(consts@)),
            final(self).code() == old(self).code(),
            final(self).level == old(self).level,
            final(self).data_offset == old(self).data_offset,
    {
        let mut i: usize = 0;
        while i < consts.len()
            invariant
                i <= consts@.len(),
                self.wf(),
                *final(self.codegen) == *final(old(self).codegen),
                grew(old(self).table@, self.table@),
                self.entries() == old(self).entries() + const_entries(consts_view(consts@)).take(
                    i as int,
                ),
                self.code() == old(self).code(),
                self.level == old(self).level,
                self.data_offset == old(self).data_offset,
            decreases consts@.len() - i,
        {
            let const_ = &consts[i];
            let ghost before = self.entries();
            let ghost all = const_entries(consts_view(consts@));
            self.table.push(Entry::Const { name: const_.ident.name.clone(), value: const_.value });
            assert(self.entries() =~= before.push(all[i as int]));
            assert(all.take(i + 1) =~= all.take(i as int).push(all[i as int]));
            assert(self.entries() =~= old(self).entries() + all.take(i + 1));
            i = i + 1;
        }
        assert(const_entries(consts_view(consts@)).take(i as int) =~= const_entries(
            consts_view(consts@),
        ));
        Ok(())
    }

    fn compile_vars(&mut self, vars: &Vec<Var>) -> (r: Result<()>)
        requires
            old(self).wf(),
        ensures
            final(self).wf(),
            *final(final(self).codegen) == *final(old(self).codegen),
            grew(old(self).table@, final(self).table@),
            final(self).code() == old(self).code(),
            final(self).level == old(self).level,
            if old(self).data_offset + vars@.len() > u16::MAX {
                r matches Err(e) && e.is(ErrorKind::TooManyVars, Seq::empty())
            } else {
                &&& r is Ok
                &&& final(self).entries() == old(self).entries() + var_entries(
                    vars_view(vars@),
                    old(self).level,
                    old(self).data_offset,
                )
                &&& final(self).data_offset == old(self).data_offset + vars@.len()
            },
    {
        let ghost all = var_entries(vars_view(vars@), self.level, self.data_offset);
        let mut i: usize = 0;
        while i < vars.len()
            invariant
                i <= vars@.len(),
                self.wf(),
                *final(self.codegen) == *final(old(self).codegen),
                grew(old(self).table@, self.table@),
                all == var_entries(vars_view(vars@), old(self).level, old(self).data_offset),
                self.entries() == old(self).entries() + all.take(i as int),
                self.code() == old(self).code(),
                self.level == old(self).level,
                self.data_offset == old(self).data_offset + i,
            decreases vars@.len() - i,
        {
            let var = &vars[i];
            if self.data_offset == u16::MAX {
                return Err(Error::new(ErrorKind::TooManyVars));
            }
            let ghost before = self.entries();
            self.table.push(
                Entry::Var {
                    name: var.ident.name.clone(),
                    level: self.level,
                    offset: self.data_offset,
                },
            );
            self.data_offset += 1;
            assert(self.entries() =~= before.push(all[i as int]));
            assert(all.take(i + 1) =~= all.take(i as int).push(all[i as int]));
            assert(self.entries() =~= old(self).entries() + all.take(i + 1));
            i = i + 1;
        }
        assert(all.take(i as int) =~= all);
        Ok(())
    }

    fn compile_procs(&mut self, procs: &Vec<Proc>) -> (r: Result<()>)
        requires
            old(self).wf(),
        ensures
            final(self).wf(),
            *final(final(self).codegen) == *final(old(self).codegen),
            final(self).data_offset == old(self).data_offset,
            old(self).declared(
                final(self),
                procs_code(
                    procs_view(procs@),
                    old(self).entries(),
                    old(self).level,
                    old(self).code(),
                ),
                r,
            ),
        decreases procs, 2int,
    {
        let ghost all = procs_view(procs@);
        let ghost goal = procs_code(all, self.entries(), self.level, self.code());
        let mut i: usize = 0;
        assert(all.skip(0) =~= all);
        while i < procs.len()
            invariant
                i <= procs@.len(),
                self.wf(),
                *final(self.codegen) == *final(old(self).codegen),
                grew(old(self).table@, self.table@),
                all == procs_view(procs@),
                goal == procs_code(all, old(self).entries(), old(self).level, old(self).code()),
                procs_code(all.skip(i as int), self.entries(), self.level, self.code()) == goal,
                self.level == old(self).level,
                self.data_offset == old(self).data_offset,
            decreases procs@.len() - i,
        {
            let proc = &procs[i];
            // Enter identifier so procedures can call themselves recursively.
            let name = proc.name.name.clone();
            let addr = #[verifier::truncate] (self.codegen.len() as u16);
            let ghost before = self.table@;
            let ghost rest = all.skip(i as int);
            assert(rest[0] == proc@);
            assert(rest.drop_first() =~= all.skip(i + 1));
            self.table.push(Entry::Proc { name, level: self.level, addr });
            assert(self.entries() =~= table_view(before).push(
                proc_entry(proc@.name, self.level, self.code()),
            ));

            self.with_scope(&proc.body)?;
            i = i + 1;
        }
        Ok(())
    }

    fn compile_stmt(&mut self, stmt: &Stmt) -> (r: Result<()>)
        requires
            old(self).wf(),
        ensures
            final(self).wf(),
            *final(final(self).codegen) == *final(old(self).codegen),
            old(self).done(
                final(self),
                stmt_code(stmt@, old(self).entries(), old(self).level, old(self).code()),
                r,
            ),
        decreases stmt, 1int,
    {
        match stmt {
            Stmt::Assign(assign) => self.compile_assign(assign),
            Stmt::Call(call) => self.compile_call(call),
            Stmt::Read(read) => self.compile_read(read),
            Stmt::Write(write) => self.compile_write(write),
            Stmt::SubBlock(sub_block) => {
                proof {
                    lemma_sub_block_view(stmt);
                }
                self.compile_sub_block(sub_block)
            },
            Stmt::If(if_stmt) => self.compile_if(if_stmt),
            Stmt::While(while_stmt) => self.compile_while(while_stmt),
        }
    }

    fn compile_assign(&mut self, assign: &AssignStmt) -> (r: Result<()>)
        requires
            old(self).wf(),
        ensures
            final(self).wf(),
            *final(final(self).codegen) == *final(old(self).codegen),
            old(self).done(
                final(self),
                match expr_code(
                    assign.rhs@,
                    old(self).entries(),
                    old(self).level,
                    old(self).code(),
                ) {
                    Err(f) => Err(f),
                    Ok(c) => store_code(assign.lhs.name@, old(self).entries(), old(self).level, c),
                },
                r,
            ),
    {
        self.compile_expr(&assign.rhs)?;
        self.compile_var_store(assign.lhs.name.as_str())
    }

    fn compile_call(&mut self, call: &CallStmt) -> (r: Result<()>)
        requires
            old(self).wf(),
        ensures
            final(self).wf(),
            *final(final(self).codegen) == *final(old(self).codegen),
            old(self).done(
                final(self),
                call_code(call.name.name@, old(self).entries(), old(self).level, old(self).code()),
                r,
            ),
    {
        let name = call.name.name.as_str();
        match self.find_ident(name) {
            Some(entry) => match entry {
                Entry::Const { .. } => Err(Error::about(ErrorKind::ExpectedProcFoundConst, name)),
                Entry::Var { .. } => Err(Error::about(ErrorKind::ExpectedProcFoundVar, name)),
                Entry::Proc { level, addr, .. } => {
                    let (l, a) = (self.level - *level, *addr);
                    self.codegen.emit_call(l, a)
                },
            },
            None => Err(Error::about(ErrorKind::Unresolved, name)),
        }
    }

    fn compile_write(&mut self, write: &WriteStmt) -> (r: Result<()>)
        requires
            old(self).wf(),
        ensures
            final(self).wf(),
            *final(final(self).codegen) == *final(old(self).codegen),
            old(self).done(
                final(self),
                match expr_code(
                    write.expr@,
                    old(self).entries(),
                    old(self).level,
                    old(self).code(),
                ) {
                    Err(f) => Err(f),
                    Ok(c) => emit(c, plain(OpCode::Write)),
                },
                r,
            ),
    {
        self.compile_expr(&write.expr)?;
        self.codegen.emit_write()
    }

    fn compile_read(&mut self, read: &ReadStmt) -> (r: Result<()>)
        requires
            old(self).wf(),
        ensures
            final(self).wf(),
            *final(final(self).codegen) == *final(old(self).codegen),
            old(self).done(
                final(self),
                match emit(old(self).code(), plain(OpCode::Read)) {
                    Err(f) => Err(f),
                    Ok(c) => store_code(read.name.name@, old(self).entries(), old(self).level, c),
                },
                r,
            ),
    {
        self.codegen.emit_read()?;
        self.compile_var_store(read.name.name.as_str())
    }

    fn compile_sub_block(&mut self, sub_block: &SubBlock) -> (r: Result<()>)
        requires
            old(self).wf(),
        ensures
            final(self).wf(),
            *final(final(self).codegen) == *final(old(self).codegen),
            old(self).done(
                final(self),
                stmts_code(
                    stmts_view(sub_block.stmts@),
                    old(self).entries(),
                    old(self).level,
                    old(self).code(),
                ),
                r,
            ),
        decreases sub_block, 0int,
    {
        let ghost all = stmts_view(sub_block.stmts@);
        let ghost goal = stmts_code(all, self.entries(), self.level, self.code());
        let mut i: usize = 0;
        assert(all.skip(0) =~= all);
        while i < sub_block.stmts.len()
            invariant
                i <= sub_block.stmts@.len(),
                self.wf(),
                *final(self.codegen) == *final(old(self).codegen),
                self.table@ == old(self).table@,
                self.level == old(self).level,
                self.data_offset == old(self).data_offset,
                all == stmts_view(sub_block.stmts@),
                goal == stmts_code(all, old(self).entries(), old(self).level, old(self).code()),
                stmts_code(all.skip(i as int), self.entries(), self.level, self.code()) == goal,
            decreases sub_block.stmts@.len() - i,
        {
            let stmt = &sub_block.stmts[i];
            let ghost rest = all.skip(i as int);
            assert(rest[0] == stmt@);
            assert(rest.drop_first() =~= all.skip(i + 1));
            self.compile_stmt(stmt)?;
            i = i + 1;
        }
        Ok(())
    }

    fn compile_if(&mut self, if_stmt: &IfStmt) -> (r: Result<()>)
        requires
            old(self).wf(),
        ensures
            final(self).wf(),
            *final(final(self).codegen) == *final(old(self).codegen),
            old(self).done(
                final(self),
                stmt_code(
                    StmtView::If { head: if_stmt.head@, body: Box::new(if_stmt.body@) },
                    old(self).entries(),
                    old(self).level,
                    old(self).code(),
                ),
                r,
            ),
        decreases if_stmt, 0int,
    {
        self.compile_cond(&if_stmt.head)?;
        let jump_index = self.codegen.reserve_jump_if_zero()?;
        proof {
            lemma_stmt_extends(if_stmt.body@, self.entries(), self.level, self.code());
        }

        self.compile_stmt(&if_stmt.body)?;

        let end = self.codegen.len();
        self.codegen.patch_jump(jump_index, #[verifier::truncate] (end as u16))?;

        Ok(())
    }

    fn compile_while(&mut self, while_stmt: &WhileStmt) -> (r: Result<()>)
        requires
            old(self).wf(),
        ensures
            final(self).wf(),
            *final(final(self).codegen) == *final(old(self).codegen),
            old(self).done(
                final(self),
                stmt_code(
                    StmtView::While { head: while_stmt.head@, body: Box::new(while_stmt.body@) },
                    old(self).entries(),
                    old(self).level,
                    old(self).code(),
                ),
                r,
            ),
        decreases while_stmt, 0int,
    {
        let head_addr = #[verifier::truncate] (self.codegen.len() as u16);
        self.compile_cond(&while_stmt.head)?;
        let jump_index = self.codegen.reserve_jump_if_zero()?;
        proof {
            lemma_stmt_extends(while_stmt.body@, self.entries(), self.level, self.code());
        }

        self.compile_stmt(&while_stmt.body)?;
        self.codegen.emit_jump(head_addr)?;

        let end = self.codegen.len();
        self.codegen.patch_jump(jump_index, #[verifier::truncate] (end as u16))?;

        Ok(())
    }

    fn compile_cond(&mut self, cond: &Cond) -> (r: Result<()>)
        requires
            old(self).wf(),
        ensures
            final(self).wf(),
            *final(final(self).codegen) == *final(old(self).codegen),
            old(self).done(
                final(self),
                cond_code(cond@, old(self).entries(), old(self).level, old(self).code()),
                r,
            ),
    {
        match cond {
            Cond::Odd(odd_cond) => {
                self.compile_expr(&odd_cond.expr)?;
                self.codegen.emit_math_odd()
            },
            Cond::Bin(bin_cond) => {
                self.compile_expr(&bin_cond.lhs)?;
                self.compile_expr(&bin_cond.rhs)?;
                self.compile_cond_op(bin_cond.op)
            },
        }
    }

    fn compile_cond_op(&mut self, op: CondOp) -> (r: Result<()>)
        requires
            old(self).wf(),
        ensures
            final(self).wf(),
            *final(final(self).codegen) == *final(old(self).codegen),
            old(self).done(
                final(self),
                emit(old(self).code(), plain(OpCode::Math(crate::schedule::cond_math(op)))),
                r,
            ),
    {
        match op {
            CondOp::Eq => self.codegen.emit_math_eq(),
            CondOp::NotEq => self.codegen.emit_math_noteq(),
            CondOp::Less => self.codegen.emit_math_lt(),
            CondOp::LessEq => self.codegen.emit_math_lte(),
            CondOp::Great => self.codegen.emit_math_gt(),
            CondOp::GreatEq => self.codegen.emit_math_gte(),
        }
    }

    fn compile_expr(&mut self, expr: &Expr) -> (r: Result<()>)
        requires
            old(self).wf(),
        ensures
            final(self).wf(),
            *final(final(self).codegen) == *final(old(self).codegen),
            old(self).done(
                final(self),
                expr_code(expr@, old(self).entries(), old(self).level, old(self).code()),
                r,
            ),
        decreases expr,
    {
        match expr {
            // Push number literal onto the stack.
            Expr::Num(num) => self.codegen.emit_lit(*num),
            Expr::Unary(expr) => {
                self.compile_expr(&expr.expr)?;
                match expr.op {
                    UnOp::Neg => self.codegen.emit_math_neg(),
                    UnOp::Pos => Ok(()),
                }
            },
            Expr::Binary(bin_expr) => {
                self.compile_expr(&bin_expr.lhs)?;
                self.compile_expr(&bin_expr.rhs)?;
                match bin_expr.op {
                    BinOp::Add => self.codegen.emit_math_add(),
                    BinOp::Sub => self.codegen.emit_math_sub(),
                    BinOp::Mul => self.codegen.emit_math_mul(),
                    BinOp::Div => self.codegen.emit_math_div(),
                }
            },
            Expr::Name(name) => {
                let name = name.name.as_str();
                match self.find_ident(name) {
                    Some(entry) => match entry {
                        Entry::Const { value, .. } => {
                            let v = *value;
                            self.codegen.emit_lit(v)
                        },
                        Entry::Var { level, offset, .. } => {
                            let (l, a) = (self.level - *level, *offset);
                            self.codegen.emit_load(l, a)
                        },
                        Entry::Proc { .. } => Err(Error::about(ErrorKind::ProcInExpr, name)),
                    },
                    None => Err(Error::about(ErrorKind::Unresolved, name)),
                }
            },
            Expr::Invalid() => Err(Error::new(ErrorKind::ErrorNode)),
        }
    }

    fn compile_var_store(&mut self, var_name: &str) -> (r: Result<()>)
        requires
            old(self).wf(),
        ensures
            final(self).wf(),
            *final(final(self).codegen) == *final(old(self).codegen),
            old(self).done(
                final(self),
                store_code(var_name@, old(self).entries(), old(self).level, old(self).code()),
                r,
            ),
    {
        match self.find_ident(var_name) {
            Some(entry) => match entry {
                Entry::Const { .. } => Err(
                    Error::about(ErrorKind::ExpectedVarFoundConst, var_name),
                ),
                Entry::Var { level, offset, .. } => {
                    let (l, a) = (self.level - *level, *offset);
                    self.codegen.emit_store(l, a)
                },
                Entry::Proc { .. } => Err(Error::about(ErrorKind::ExpectedVarFoundProc, var_name)),
            },
            None => Err(Error::about(ErrorKind::Unresolved, var_name)),
        }
    }
}

} // verus!
