//! Abstract syntax tree, and its mathematical model.
use vstd::prelude::*;
use crate::errors::Error;
use crate::Num;

verus! {

#[derive(Debug)]
pub struct Program {
    pub block: Block,
}

#[derive(Debug)]
pub struct Block {
    pub consts: Vec<Const>,
    pub vars: Vec<Var>,
    pub procs: Vec<Proc>,
    pub stmt: Stmt,
}

#[derive(Debug)]
pub struct Const {
    pub ident: Ident,
    pub value: Num,
}

#[derive(Debug)]
pub struct Var {
    pub ident: Ident,
}

#[derive(Debug)]
pub struct Proc {
    pub name: Ident,
    pub body: Block,
}

#[derive(Debug)]
pub enum Stmt {
    /// `<ident> := <expression>`
    Assign(Box<AssignStmt>),
    /// `call <ident>`
    Call(Box<CallStmt>),
    /// `? <ident>` or `read <ident>`
    Read(Box<ReadStmt>),
    /// `! <expression>` or `write <expression>`
    Write(WriteStmt),
    /// `begin <statement> (";" <statement>)* end`; the empty statement is
    /// a sub-block without statements.
    SubBlock(SubBlock),
    /// `if <condition> then <statement>`
    If(Box<IfStmt>),
    /// `while <condition> do <statement>`
    While(Box<WhileStmt>),
}

/// Error while parsing statement.
#[derive(Debug)]
pub struct ErrStmt {
    pub err: Error,
}

#[derive(Debug)]
pub struct AssignStmt {
    pub lhs: Ident,
    pub rhs: Expr,
}

#[derive(Debug)]
pub struct CallStmt {
    pub name: Ident,
}

#[derive(Debug)]
pub struct WriteStmt {
    pub expr: Expr,
}

#[derive(Debug)]
pub struct ReadStmt {
    pub name: Ident,
}

#[derive(Debug)]
pub struct SubBlock {
    pub stmts: Vec<Stmt>,
}

#[derive(Debug)]
pub struct IfStmt {
    pub head: Cond,
    pub body: Stmt,
}

#[derive(Debug)]
pub struct WhileStmt {
    pub head: Cond,
    pub body: Stmt,
}

/// Conditional statement operator.
#[derive(Debug, Clone, Copy, PartialEq, Eq, Structural)]
pub enum CondOp {
    /// `=`
    Eq,
    /// `#`
    NotEq,
    /// `<`
    Less,
    /// `<=`
    LessEq,
    /// `>`
    Great,
    /// `>=`
    GreatEq,
}

#[derive(Debug)]
pub enum Cond {
    Odd(OddCond),
    Bin(BinaryCond),
}

#[derive(Debug)]
pub struct OddCond {
    pub expr: Expr,
}

#[derive(Debug)]
pub struct BinaryCond {
    pub op: CondOp,
    pub lhs: Expr,
    pub rhs: Expr,
}

#[derive(Debug)]
pub enum Expr {
    Num(Num),
    Unary(Box<UnExpr>),
    Binary(Box<BinExpr>),
    /// Variable or constant access.
    Name(Ident),
    /// What is left of an expression that could not be parsed.
    Invalid(),
}

/// Error while parsing expression.
#[derive(Debug)]
pub struct ErrExpr {
    pub err: Error,
}

#[derive(Debug, Clone, Copy, PartialEq, Eq, Structural)]
pub enum UnOp {
    /// `+`
    Pos,
    /// `-`
    Neg,
}

#[derive(Debug)]
pub struct UnExpr {
    pub op: UnOp,
    pub expr: Expr,
}

#[derive(Debug, Clone, Copy, PartialEq, Eq, Structural)]
pub enum BinOp {
    /// `+`
    Add,
    /// `-`
    Sub,
    /// `*`
    Mul,
    /// `/`
    Div,
}

#[derive(Debug)]
pub struct BinExpr {
    pub op: BinOp,
    pub lhs: Expr,
    pub rhs: Expr,
}

#[derive(Debug)]
pub struct Ident {
    pub name: String,
}

/// The model of an expression.
#[allow(inconsistent_fields)]
pub enum ExprView {
    Num(Num),
    Unary { op: UnOp, expr: Box<ExprView> },
    Binary { op: BinOp, lhs: Box<ExprView>, rhs: Box<ExprView> },
    Name(Seq<char>),
    Invalid,
}

/// The model of a condition.
pub enum CondView {
    Odd(ExprView),
    Bin { op: CondOp, lhs: ExprView, rhs: ExprView },
}

/// The model of a statement.
#[allow(inconsistent_fields)]
pub enum StmtView {
    Assign { lhs: Seq<char>, rhs: ExprView },
    Call { name: Seq<char> },
    Read { name: Seq<char> },
    Write { expr: ExprView },
    SubBlock { stmts: Seq<StmtView> },
    If { head: CondView, body: Box<StmtView> },
    While { head: CondView, body: Box<StmtView> },
}

/// The model of a constant declaration.
pub struct ConstView {
    pub name: Seq<char>,
    pub value: Num,
}

/// The model of a procedure declaration.
pub struct ProcView {
    pub name: Seq<char>,
    pub body: BlockView,
}

/// The model of a block: its declarations and its statement.
pub struct BlockView {
    pub consts: Seq<ConstView>,
    /// The names of the variables.
    pub vars: Seq<Seq<char>>,
    pub procs: Seq<ProcView>,
    pub stmt: StmtView,
}

/// The model of a program.
pub struct ProgramView {
    pub block: BlockView,
}

/// The model of an expression.
pub open spec fn expr_view(e: Expr) -> ExprView
    decreases e,
{
    match e {
        Expr::Num(n) => ExprView::Num(n),
        Expr::Unary(u) => ExprView::Unary { op: u.op, expr: Box::new(expr_view(u.expr)) },
        Expr::Binary(b) => ExprView::Binary {
            op: b.op,
            lhs: Box::new(expr_view(b.lhs)),
            rhs: Box::new(expr_view(b.rhs)),
        },
        Expr::Name(ident) => ExprView::Name(ident.name@),
        Expr::Invalid() => ExprView::Invalid,
    }
}

impl View for Expr {
    type V = ExprView;

    open spec fn view(&self) -> ExprView {
        expr_view(*self)
    }
}

impl View for Cond {
    type V = CondView;

    open spec fn view(&self) -> CondView {
        match self {
            Cond::Odd(odd) => CondView::Odd(odd.expr@),
            Cond::Bin(bin) => CondView::Bin { op: bin.op, lhs: bin.lhs@, rhs: bin.rhs@ },
        }
    }
}

/// The model of a statement.
pub open spec fn stmt_view(s: Stmt) -> StmtView
    decreases s,
{
    match s {
        Stmt::Assign(assign) => StmtView::Assign { lhs: assign.lhs.name@, rhs: assign.rhs@ },
        Stmt::Call(call) => StmtView::Call { name: call.name.name@ },
        Stmt::Read(read) => StmtView::Read { name: read.name.name@ },
        Stmt::Write(write) => StmtView::Write { expr: write.expr@ },
        Stmt::SubBlock(sub) => StmtView::SubBlock {
            stmts: Seq::new(
                sub.stmts@.len(),
                |i: int|
                    if 0 <= i < sub.stmts@.len() {
                        stmt_view(sub.stmts@[i])
                    } else {
                        arbitrary()
                    },
            ),
        },
        Stmt::If(if_stmt) => StmtView::If {
            head: if_stmt.head@,
            body: Box::new(stmt_view(if_stmt.body)),
        },
        Stmt::While(while_stmt) => StmtView::While {
            head: while_stmt.head@,
            body: Box::new(stmt_view(while_stmt.body)),
        },
    }
}

impl View for Stmt {
    type V = StmtView;

    open spec fn view(&self) -> StmtView {
        stmt_view(*self)
    }
}

impl View for Const {
    type V = ConstView;

    open spec fn view(&self) -> ConstView {
        ConstView { name: self.ident.name@, value: self.value }
    }
}

/// The model of a block.
pub open spec fn block_view(b: Block) -> BlockView
    decreases b,
{
    BlockView {
        consts: Seq::new(b.consts@.len(), |i: int| b.consts@[i]@),
        vars: Seq::new(b.vars@.len(), |i: int| b.vars@[i].ident.name@),
        procs: Seq::new(
            b.procs@.len(),
            |i: int|
                if 0 <= i < b.procs@.len() {
                    ProcView { name: b.procs@[i].name.name@, body: block_view(b.procs@[i].body) }
                } else {
                    arbitrary()
                },
        ),
        stmt: b.stmt@,
    }
}

impl View for Block {
    type V = BlockView;

    open spec fn view(&self) -> BlockView {
        block_view(*self)
    }
}

impl View for Proc {
    type V = ProcView;

    open spec fn view(&self) -> ProcView {
        ProcView { name: self.name.name@, body: self.body@ }
    }
}

impl View for Ident {
    type V = Seq<char>;

    open spec fn view(&self) -> Seq<char> {
        self.name@
    }
}

impl View for AssignStmt {
    type V = StmtView;

    open spec fn view(&self) -> StmtView {
        StmtView::Assign { lhs: self.lhs.name@, rhs: self.rhs@ }
    }
}

impl View for CallStmt {
    type V = StmtView;

    open spec fn view(&self) -> StmtView {
        StmtView::Call { name: self.name.name@ }
    }
}

impl View for ReadStmt {
    type V = StmtView;

    open spec fn view(&self) -> StmtView {
        StmtView::Read { name: self.name.name@ }
    }
}

impl View for WriteStmt {
    type V = StmtView;

    open spec fn view(&self) -> StmtView {
        StmtView::Write { expr: self.expr@ }
    }
}

impl View for SubBlock {
    type V = StmtView;

    open spec fn view(&self) -> StmtView {
        StmtView::SubBlock { stmts: stmts_view(self.stmts@) }
    }
}

impl View for IfStmt {
    type V = StmtView;

    open spec fn view(&self) -> StmtView {
        StmtView::If { head: self.head@, body: Box::new(self.body@) }
    }
}

impl View for WhileStmt {
    type V = StmtView;

    open spec fn view(&self) -> StmtView {
        StmtView::While { head: self.head@, body: Box::new(self.body@) }
    }
}

impl View for OddCond {
    type V = CondView;

    open spec fn view(&self) -> CondView {
        CondView::Odd(self.expr@)
    }
}

impl View for BinaryCond {
    type V = CondView;

    open spec fn view(&self) -> CondView {
        CondView::Bin { op: self.op, lhs: self.lhs@, rhs: self.rhs@ }
    }
}

impl View for Program {
    type V = ProgramView;

    open spec fn view(&self) -> ProgramView {
        ProgramView { block: self.block@ }
    }
}

impl Stmt {
    pub fn as_writeln(&self) -> (r: Option<&WriteStmt>)
        ensures
            match self {
                Stmt::Write(stmt) => r == Some(stmt),
                _ => r is None,
            },
    {
        match self {
            Self::Write(stmt) => Some(stmt),
            _ => None,
        }
    }

    pub fn as_sub_block(&self) -> (r: Option<&SubBlock>)
        ensures
            match self {
                Stmt::SubBlock(stmt) => r == Some(stmt),
                _ => r is None,
            },
    {
        match self {
            Self::SubBlock(stmt) => Some(stmt),
            _ => None,
        }
    }
}

impl Expr {
    pub fn as_num(&self) -> (r: Option<Num>)
        ensures
            match self {
                Expr::Num(n) => r == Some(*n),
                _ => r is None,
            },
    {
        match *self {
            Self::Num(expr) => Some(expr),
            _ => None,
        }
    }
}

} // verus!

verus! {

/// The models of constant declarations, in order.
pub open spec fn consts_view(consts: Seq<Const>) -> Seq<ConstView> {
    Seq::new(consts.len(), |i: int| consts[i]@)
}

/// The names of variable declarations, in order.
pub open spec fn vars_view(vars: Seq<Var>) -> Seq<Seq<char>> {
    Seq::new(vars.len(), |i: int| vars[i].ident.name@)
}

/// The models of procedure declarations, in order.
pub open spec fn procs_view(procs: Seq<Proc>) -> Seq<ProcView> {
    Seq::new(procs.len(), |i: int| procs[i]@)
}

/// The models of statements, in order.
pub open spec fn stmts_view(stmts: Seq<Stmt>) -> Seq<StmtView> {
    Seq::new(stmts.len(), |i: int| stmts[i]@)
}

/// The model of a block is made of the models of its parts.
pub proof fn lemma_block_view(block: &Block)
    ensures
        block@.consts == consts_view(block.consts@),
        block@.vars == vars_view(block.vars@),
        block@.procs == procs_view(block.procs@),
        block@.stmt == block.stmt@,
{
    reveal_with_fuel(block_view, 2);
    assert(block@.consts =~= consts_view(block.consts@));
    assert(block@.vars =~= vars_view(block.vars@));
    assert(block@.procs =~= procs_view(block.procs@));
}

/// The model of a statement is the model of the part that it is made of.
pub proof fn lemma_stmt_view(stmt: &Stmt)
    ensures
        match stmt {
            Stmt::Assign(part) => stmt@ == part@,
            Stmt::Call(part) => stmt@ == part@,
            Stmt::Read(part) => stmt@ == part@,
            Stmt::Write(part) => stmt@ == part@,
            Stmt::SubBlock(part) => stmt@ == part@,
            Stmt::If(part) => stmt@ == part@,
            Stmt::While(part) => stmt@ == part@,
        },
{
    lemma_sub_block_view(stmt);
}

/// The model of a sub-block is made of the models of its statements.
pub proof fn lemma_sub_block_view(stmt: &Stmt)
    ensures
        stmt matches Stmt::SubBlock(sub) ==> stmt@ == (StmtView::SubBlock {
            stmts: stmts_view(sub.stmts@),
        }),
{
    reveal_with_fuel(stmt_view, 2);
    if let Stmt::SubBlock(sub) = stmt {
        assert(stmt@->SubBlock_stmts =~= stmts_view(sub.stmts@));
    }
}

} // verus!
