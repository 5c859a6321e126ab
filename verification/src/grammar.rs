//! The grammar of the language, as a mathematical model of the parser.
//!
//! ```text
//! program     ::= block "."
//! block       ::= [ "const" ident "=" num {"," ident "=" num} ";" ]
//!                 [ "var"   ident {"," ident} ";" ]
//!                 { "procedure" ident ";" block ";" }
//!                 statement
//! statement   ::= ident ":=" expression
//!               | "call" ident
//!               | ("read" | "?") ident
//!               | ("write" | "!") expression
//!               | "begin" statement {";" statement} "end"
//!               | "if" condition "then" statement
//!               | "while" condition "do" statement
//!               | (empty)
//! condition   ::= "odd" expression
//!               | expression ("="|"#"|"<"|"<="|">"|">=") expression
//! expression  ::= ["+"|"-"] term {("+"|"-") term}
//! term        ::= factor {("*"|"/") factor}
//! factor      ::= ident | num | "(" expression ")"
//! ```
//!
//! Every function here takes the text and the position of the first
//! character that was not consumed, and gives what was parsed together with
//! the position behind it, or the first fault.
use vstd::prelude::*;
use crate::ast::{
    BinOp, BlockView, CondOp, CondView, ConstView, ExprView, ProcView, ProgramView, StmtView, UnOp,
};
use crate::errors::ErrorKind;
use crate::lexer::{lemma_lex_range, lex, Source};
use crate::tokens::{Keyword, TokenKind};
use crate::Num;

verus! {

/// Why the parser stopped: the kind of the error, and the characters
/// `start..end` of the token at which it was found.
pub struct Fault {
    pub kind: ErrorKind,
    pub start: int,
    pub end: int,
}

pub type Parsed<T> = Result<(T, int), Fault>;

/// What is left of the text behind `pos`: parsing goes on while it shrinks.
pub open spec fn left(src: Source, pos: int) -> nat {
    if 0 <= pos <= src.text.len() {
        (src.text.len() - pos) as nat
    } else {
        0
    }
}

/// The kind of the next token at or after `pos`.
pub open spec fn peek(src: Source, pos: int) -> Result<TokenKind, Fault> {
    let lexed = lex(src, pos);
    if !(0 <= pos <= src.text.len()) {
        Err(Fault { kind: ErrorKind::UnexpectedEof, start: pos, end: pos })
    } else {
        match lexed.outcome {
            Ok(kind) => Ok(kind),
            Err(kind) => Err(Fault { kind, start: lexed.start, end: lexed.end }),
        }
    }
}

/// The position behind the next token at or after `pos`.
pub open spec fn after(src: Source, pos: int) -> int {
    lex(src, pos).end
}

/// The fault of `kind` at the next token at or after `pos`.
pub open spec fn fault_at(src: Source, pos: int, kind: ErrorKind) -> Fault {
    Fault { kind, start: lex(src, pos).start, end: lex(src, pos).end }
}

/// A parser never moves back: what was parsed from `from` ends at or
/// behind it. The second case never comes up, as the laws at the end of
/// this file show; it is what makes the grammar a definition.
pub open spec fn forward<T>(from: int, r: Parsed<T>) -> Parsed<T> {
    match r {
        Ok((v, pos)) => if pos >= from >= 0 {
            Ok((v, pos))
        } else {
            Err(Fault { kind: ErrorKind::UnexpectedEof, start: from, end: from })
        },
        Err(f) => Err(f),
    }
}

/// The next token has to be of the kind `want`, and is consumed.
pub open spec fn expect(src: Source, pos: int, want: TokenKind) -> Parsed<()> {
    match peek(src, pos) {
        Err(f) => Err(f),
        Ok(kind) => if kind == want {
            Ok(((), after(src, pos)))
        } else {
            Err(fault_at(src, pos, ErrorKind::Expected { want, found: kind }))
        },
    }
}

/// The number that the decimal digits `digits` write.
pub open spec fn decimal(digits: Seq<char>) -> int
    decreases digits.len(),
{
    if digits.len() == 0 {
        0
    } else {
        decimal(digits.drop_last()) * 10 + (digits.last() as int - '0' as int)
    }
}

/// The characters of the next token at or after `pos`.
pub open spec fn word(src: Source, pos: int) -> Seq<char> {
    src.text.subrange(lex(src, pos).start, lex(src, pos).end)
}

pub open spec fn p_ident(src: Source, pos: int) -> Parsed<Seq<char>> {
    match peek(src, pos) {
        Err(f) => Err(f),
        Ok(TokenKind::Ident) => Ok((word(src, pos), after(src, pos))),
        Ok(kind) => Err(fault_at(src, pos, ErrorKind::ExpectedIdent { found: kind })),
    }
}

/// Numbers are sequences of digits, and have to be signed 32-bit values.
pub open spec fn p_num(src: Source, pos: int) -> Parsed<Num> {
    match expect(src, pos, TokenKind::Num) {
        Err(f) => Err(f),
        Ok((_, end)) => {
            let value = decimal(word(src, pos));
            if value <= i32::MAX {
                Ok((value as i32, end))
            } else {
                Err(fault_at(src, pos, ErrorKind::BadNumber))
            }
        },
    }
}

pub open spec fn unary(op: UnOp, e: ExprView) -> ExprView {
    ExprView::Unary { op, expr: Box::new(e) }
}

pub open spec fn binary(op: BinOp, lhs: ExprView, rhs: ExprView) -> ExprView {
    ExprView::Binary { op, lhs: Box::new(lhs), rhs: Box::new(rhs) }
}

/// `factor ::= ident | num | "(" expression ")"`
pub open spec fn p_factor(src: Source, pos: int) -> Parsed<ExprView>
    decreases left(src, pos), 1int,
{
    match peek(src, pos) {
        Err(f) => Err(f),
        Ok(TokenKind::Ident) => match p_ident(src, pos) {
            Err(f) => Err(f),
            Ok((name, end)) => Ok((ExprView::Name(name), end)),
        },
        Ok(TokenKind::Num) => match p_num(src, pos) {
            Err(f) => Err(f),
            Ok((n, end)) => Ok((ExprView::Num(n), end)),
        },
        Ok(TokenKind::ParenLeft) => p_group(src, pos),
        Ok(kind) => Err(fault_at(src, pos, ErrorKind::ExpectedFactor { found: kind })),
    }
}

/// `"(" expression ")"`: the parentheses leave no trace in the tree.
pub open spec fn p_group(src: Source, pos: int) -> Parsed<ExprView>
    decreases left(src, pos), 0int,
{
    match expect(src, pos, TokenKind::ParenLeft) {
        Err(f) => Err(f),
        Ok((_, pos1)) => {
            proof {
                lemma_lex_range(src, pos);
            }
            match p_expr(src, pos1) {
                Err(f) => Err(f),
                Ok((e, pos2)) => match expect(src, pos2, TokenKind::ParenRight) {
                    Err(f) => Err(f),
                    Ok((_, pos3)) => Ok((e, pos3)),
                },
            }
        },
    }
}

/// `term ::= factor {("*"|"/") factor}`, left-associative.
pub open spec fn p_term(src: Source, pos: int) -> Parsed<ExprView>
    decreases left(src, pos), 3int,
{
    match forward(pos, p_factor(src, pos)) {
        Err(f) => Err(f),
        Ok((lhs, pos1)) => p_term_rest(src, pos1, lhs),
    }
}

pub open spec fn term_op(kind: TokenKind) -> Option<BinOp> {
    match kind {
        TokenKind::Star => Some(BinOp::Mul),
        TokenKind::Slash => Some(BinOp::Div),
        _ => None,
    }
}

/// `{("*"|"/") factor}` behind the term `lhs`.
pub open spec fn p_term_rest(src: Source, pos: int, lhs: ExprView) -> Parsed<ExprView>
    decreases left(src, pos), 2int,
{
    match peek(src, pos) {
        Err(f) => Err(f),
        Ok(kind) => match term_op(kind) {
            Some(op) => {
                proof {
                    lemma_lex_range(src, pos);
                }
                let pos1 = after(src, pos);
                match forward(pos1, p_factor(src, pos1)) {
                    Err(f) => Err(f),
                    Ok((rhs, pos2)) => p_term_rest(src, pos2, binary(op, lhs, rhs)),
                }
            },
            None => Ok((lhs, pos)),
        },
    }
}

pub open spec fn sign_op(kind: TokenKind) -> Option<UnOp> {
    match kind {
        TokenKind::Plus => Some(UnOp::Pos),
        TokenKind::Minus => Some(UnOp::Neg),
        _ => None,
    }
}

pub open spec fn expr_op(kind: TokenKind) -> Option<BinOp> {
    match kind {
        TokenKind::Plus => Some(BinOp::Add),
        TokenKind::Minus => Some(BinOp::Sub),
        _ => None,
    }
}

/// `expression ::= ["+"|"-"] term {("+"|"-") term}`, left-associative; a
/// sign belongs to the first term.
pub open spec fn p_expr(src: Source, pos: int) -> Parsed<ExprView>
    decreases left(src, pos), 5int,
{
    match peek(src, pos) {
        Err(f) => Err(f),
        Ok(kind) => match sign_op(kind) {
            Some(op) => {
                proof {
                    lemma_lex_range(src, pos);
                }
                let pos1 = after(src, pos);
                match forward(pos1, p_term(src, pos1)) {
                    Err(f) => Err(f),
                    Ok((e, pos2)) => p_expr_rest(src, pos2, unary(op, e)),
                }
            },
            None => match forward(pos, p_term(src, pos)) {
                Err(f) => Err(f),
                Ok((e, pos2)) => p_expr_rest(src, pos2, e),
            },
        },
    }
}

/// `{("+"|"-") term}` behind the expression `lhs`.
pub open spec fn p_expr_rest(src: Source, pos: int, lhs: ExprView) -> Parsed<ExprView>
    decreases left(src, pos), 4int,
{
    match peek(src, pos) {
        Err(f) => Err(f),
        Ok(kind) => match expr_op(kind) {
            Some(op) => {
                proof {
                    lemma_lex_range(src, pos);
                }
                let pos1 = after(src, pos);
                match forward(pos1, p_term(src, pos1)) {
                    Err(f) => Err(f),
                    Ok((rhs, pos2)) => p_expr_rest(src, pos2, binary(op, lhs, rhs)),
                }
            },
            None => Ok((lhs, pos)),
        },
    }
}

/// The operator of a condition that a token stands for.
pub open spec fn cond_op(kind: TokenKind) -> Option<CondOp> {
    match kind {
        TokenKind::Eq => Some(CondOp::Eq),
        TokenKind::Hash => Some(CondOp::NotEq),
        TokenKind::Less => Some(CondOp::Less),
        TokenKind::LessEq => Some(CondOp::LessEq),
        TokenKind::Great => Some(CondOp::Great),
        TokenKind::GreatEq => Some(CondOp::GreatEq),
        _ => None,
    }
}

pub open spec fn p_cond_op(src: Source, pos: int) -> Parsed<CondOp> {
    match peek(src, pos) {
        Err(f) => Err(f),
        Ok(kind) => match cond_op(kind) {
            Some(op) => Ok((op, after(src, pos))),
            None => Err(fault_at(src, pos, ErrorKind::ExpectedCondOp { found: kind })),
        },
    }
}

/// `"odd" expression`
pub open spec fn p_odd_cond(src: Source, pos: int) -> Parsed<CondView> {
    match expect(src, pos, TokenKind::Keyword(Keyword::Odd)) {
        Err(f) => Err(f),
        Ok((_, pos1)) => match p_expr(src, pos1) {
            Err(f) => Err(f),
            Ok((e, end)) => Ok((CondView::Odd(e), end)),
        },
    }
}

/// `expression op expression`
pub open spec fn p_binary_cond(src: Source, pos: int) -> Parsed<CondView> {
    match p_expr(src, pos) {
        Err(f) => Err(f),
        Ok((lhs, pos1)) => match p_cond_op(src, pos1) {
            Err(f) => Err(f),
            Ok((op, pos2)) => match p_expr(src, pos2) {
                Err(f) => Err(f),
                Ok((rhs, pos3)) => Ok((CondView::Bin { op, lhs, rhs }, pos3)),
            },
        },
    }
}

/// `condition ::= "odd" expression | expression op expression`
pub open spec fn p_cond(src: Source, pos: int) -> Parsed<CondView> {
    match peek(src, pos) {
        Err(f) => Err(f),
        Ok(TokenKind::Keyword(Keyword::Odd)) => p_odd_cond(src, pos),
        Ok(_) => p_binary_cond(src, pos),
    }
}

/// The statement that stands for the empty statement.
pub open spec fn empty_stmt() -> StmtView {
    StmtView::SubBlock { stmts: Seq::empty() }
}

/// `ident ":=" expression`
pub open spec fn p_assign(src: Source, pos: int) -> Parsed<StmtView> {
    match p_ident(src, pos) {
        Err(f) => Err(f),
        Ok((lhs, pos1)) => match expect(src, pos1, TokenKind::Assign) {
            Err(f) => Err(f),
            Ok((_, pos2)) => match p_expr(src, pos2) {
                Err(f) => Err(f),
                Ok((rhs, pos3)) => Ok((StmtView::Assign { lhs, rhs }, pos3)),
            },
        },
    }
}

/// `"call" ident`
pub open spec fn p_call(src: Source, pos: int) -> Parsed<StmtView> {
    match expect(src, pos, TokenKind::Keyword(Keyword::Call)) {
        Err(f) => Err(f),
        Ok((_, pos1)) => match p_ident(src, pos1) {
            Err(f) => Err(f),
            Ok((name, pos2)) => Ok((StmtView::Call { name }, pos2)),
        },
    }
}

/// `("read" | "?") ident`
pub open spec fn p_read(src: Source, pos: int) -> Parsed<StmtView> {
    match expect(src, pos, TokenKind::Keyword(Keyword::Read)) {
        Err(f) => Err(f),
        Ok((_, pos1)) => match p_ident(src, pos1) {
            Err(f) => Err(f),
            Ok((name, pos2)) => Ok((StmtView::Read { name }, pos2)),
        },
    }
}

/// `("write" | "!") expression`
pub open spec fn p_write(src: Source, pos: int) -> Parsed<StmtView> {
    match expect(src, pos, TokenKind::Keyword(Keyword::Write)) {
        Err(f) => Err(f),
        Ok((_, pos1)) => match p_expr(src, pos1) {
            Err(f) => Err(f),
            Ok((expr, pos2)) => Ok((StmtView::Write { expr }, pos2)),
        },
    }
}

/// `statement`: the first token tells which; a token that starts no
/// statement leaves the empty statement, and is not consumed.
pub open spec fn p_stmt(src: Source, pos: int) -> Parsed<StmtView>
    decreases left(src, pos), 3int,
{
    match peek(src, pos) {
        Err(f) => Err(f),
        Ok(TokenKind::Ident) => p_assign(src, pos),
        Ok(TokenKind::Keyword(Keyword::Call)) => p_call(src, pos),
        Ok(TokenKind::Keyword(Keyword::Read)) => p_read(src, pos),
        Ok(TokenKind::Keyword(Keyword::Write)) => p_write(src, pos),
        Ok(TokenKind::Keyword(Keyword::Begin)) => p_begin(src, pos),
        Ok(TokenKind::Keyword(Keyword::If)) => p_if(src, pos),
        Ok(TokenKind::Keyword(Keyword::While)) => p_while(src, pos),
        Ok(_) => Ok((empty_stmt(), pos)),
    }
}

/// `"begin" statement {";" statement} "end"`
pub open spec fn p_begin(src: Source, pos: int) -> Parsed<StmtView>
    decreases left(src, pos), 2int,
{
    match expect(src, pos, TokenKind::Keyword(Keyword::Begin)) {
        Err(f) => Err(f),
        Ok((_, pos1)) => {
            proof {
                lemma_lex_range(src, pos);
            }
            match p_stmts(src, pos1) {
                Err(f) => Err(f),
                Ok((stmts, pos2)) => match expect(src, pos2, TokenKind::Keyword(Keyword::End)) {
                    Err(f) => Err(f),
                    Ok((_, pos3)) => Ok((StmtView::SubBlock { stmts }, pos3)),
                },
            }
        },
    }
}

/// `statement {";" statement}`, up to `end`, which is not consumed.
pub open spec fn p_stmts(src: Source, pos: int) -> Parsed<Seq<StmtView>>
    decreases left(src, pos), 4int,
{
    match forward(pos, p_stmt(src, pos)) {
        Err(f) => Err(f),
        Ok((first, pos1)) => p_stmts_rest(src, pos1, seq![first]),
    }
}

/// `{";" statement}` behind the statements `done`, up to `end`, which is
/// not consumed.
pub open spec fn p_stmts_rest(src: Source, pos: int, done: Seq<StmtView>) -> Parsed<
    Seq<StmtView>,
>
    decreases left(src, pos), 1int,
{
    match peek(src, pos) {
        Err(f) => Err(f),
        Ok(TokenKind::Keyword(Keyword::End)) => Ok((done, pos)),
        Ok(TokenKind::Semi) => {
            proof {
                lemma_lex_range(src, pos);
            }
            let pos1 = after(src, pos);
            match forward(pos1, p_stmt(src, pos1)) {
                Err(f) => Err(f),
                Ok((s, pos2)) => p_stmts_rest(src, pos2, done.push(s)),
            }
        },
        Ok(TokenKind::Eof) => Err(fault_at(src, pos, ErrorKind::UnexpectedEof)),
        Ok(kind) => Err(fault_at(src, pos, ErrorKind::ExpectedSemiOrEnd { found: kind })),
    }
}

/// `"if" condition "then" statement`
pub open spec fn p_if(src: Source, pos: int) -> Parsed<StmtView>
    decreases left(src, pos), 2int,
{
    match expect(src, pos, TokenKind::Keyword(Keyword::If)) {
        Err(f) => Err(f),
        Ok((_, pos1)) => match forward(pos1, p_cond(src, pos1)) {
            Err(f) => Err(f),
            Ok((head, pos2)) => match forward(
                pos2,
                expect(src, pos2, TokenKind::Keyword(Keyword::Then)),
            ) {
                Err(f) => Err(f),
                Ok((_, pos3)) => {
                    proof {
                        lemma_lex_range(src, pos);
                    }
                    match p_stmt(src, pos3) {
                        Err(f) => Err(f),
                        Ok((body, pos4)) => Ok(
                            (StmtView::If { head, body: Box::new(body) }, pos4),
                        ),
                    }
                },
            },
        },
    }
}

/// `"while" condition "do" statement`
pub open spec fn p_while(src: Source, pos: int) -> Parsed<StmtView>
    decreases left(src, pos), 2int,
{
    match expect(src, pos, TokenKind::Keyword(Keyword::While)) {
        Err(f) => Err(f),
        Ok((_, pos1)) => match forward(pos1, p_cond(src, pos1)) {
            Err(f) => Err(f),
            Ok((head, pos2)) => match forward(
                pos2,
                expect(src, pos2, TokenKind::Keyword(Keyword::Do)),
            ) {
                Err(f) => Err(f),
                Ok((_, pos3)) => {
                    proof {
                        lemma_lex_range(src, pos);
                    }
                    match p_stmt(src, pos3) {
                        Err(f) => Err(f),
                        Ok((body, pos4)) => Ok(
                            (StmtView::While { head, body: Box::new(body) }, pos4),
                        ),
                    }
                },
            },
        },
    }
}

/// `ident "=" num`
pub open spec fn p_const_assign(src: Source, pos: int) -> Parsed<ConstView> {
    match p_ident(src, pos) {
        Err(f) => Err(f),
        Ok((name, pos1)) => match expect(src, pos1, TokenKind::Eq) {
            Err(f) => Err(f),
            Ok((_, pos2)) => match p_num(src, pos2) {
                Err(f) => Err(f),
                Ok((value, pos3)) => Ok((ConstView { name, value }, pos3)),
            },
        },
    }
}

/// `{"," ident "=" num} ";"` behind the constants `done`.
pub open spec fn p_consts_rest(src: Source, pos: int, done: Seq<ConstView>) -> Parsed<
    Seq<ConstView>,
>
    decreases left(src, pos),
{
    match peek(src, pos) {
        Err(f) => Err(f),
        Ok(TokenKind::Comma) => {
            proof {
                lemma_lex_range(src, pos);
            }
            let pos1 = after(src, pos);
            match forward(pos1, p_const_assign(src, pos1)) {
                Err(f) => Err(f),
                Ok((c, pos2)) => p_consts_rest(src, pos2, done.push(c)),
            }
        },
        Ok(TokenKind::Semi) => Ok((done, after(src, pos))),
        Ok(TokenKind::Eof) => Err(fault_at(src, pos, ErrorKind::UnexpectedEof)),
        Ok(kind) => Err(fault_at(src, pos, ErrorKind::ExpectedCommaOrSemi { found: kind })),
    }
}

/// `[ "const" ident "=" num {"," ident "=" num} ";" ]`
pub open spec fn p_consts(src: Source, pos: int) -> Parsed<Seq<ConstView>> {
    match peek(src, pos) {
        Err(f) => Err(f),
        Ok(TokenKind::Keyword(Keyword::Const)) => match p_const_assign(src, after(src, pos)) {
            Err(f) => Err(f),
            Ok((c, pos1)) => p_consts_rest(src, pos1, seq![c]),
        },
        Ok(_) => Ok((Seq::empty(), pos)),
    }
}

/// `{"," ident} ";"` behind the variables `done`.
pub open spec fn p_vars_rest(src: Source, pos: int, done: Seq<Seq<char>>) -> Parsed<
    Seq<Seq<char>>,
>
    decreases left(src, pos),
{
    match peek(src, pos) {
        Err(f) => Err(f),
        Ok(TokenKind::Comma) => {
            proof {
                lemma_lex_range(src, pos);
            }
            let pos1 = after(src, pos);
            match forward(pos1, p_ident(src, pos1)) {
                Err(f) => Err(f),
                Ok((name, pos2)) => p_vars_rest(src, pos2, done.push(name)),
            }
        },
        Ok(TokenKind::Semi) => Ok((done, after(src, pos))),
        Ok(TokenKind::Eof) => Err(fault_at(src, pos, ErrorKind::UnexpectedEof)),
        Ok(kind) => Err(fault_at(src, pos, ErrorKind::ExpectedCommaOrSemi { found: kind })),
    }
}

/// `[ "var" ident {"," ident} ";" ]`
pub open spec fn p_vars(src: Source, pos: int) -> Parsed<Seq<Seq<char>>> {
    match peek(src, pos) {
        Err(f) => Err(f),
        Ok(TokenKind::Keyword(Keyword::Var)) => match p_ident(src, after(src, pos)) {
            Err(f) => Err(f),
            Ok((name, pos1)) => p_vars_rest(src, pos1, seq![name]),
        },
        Ok(_) => Ok((Seq::empty(), pos)),
    }
}

/// `"procedure" ident ";" block ";"`
pub open spec fn p_proc(src: Source, pos: int) -> Parsed<ProcView>
    decreases left(src, pos), 0int,
{
    match expect(src, pos, TokenKind::Keyword(Keyword::Procedure)) {
        Err(f) => Err(f),
        Ok((_, pos1)) => match forward(pos1, p_ident(src, pos1)) {
            Err(f) => Err(f),
            Ok((name, pos2)) => match forward(pos2, expect(src, pos2, TokenKind::Semi)) {
                Err(f) => Err(f),
                Ok((_, pos3)) => {
                    proof {
                        lemma_lex_range(src, pos);
                    }
                    match forward(pos3, p_block(src, pos3)) {
                        Err(f) => Err(f),
                        Ok((body, pos4)) => match forward(
                            pos4,
                            expect(src, pos4, TokenKind::Semi),
                        ) {
                            Err(f) => Err(f),
                            Ok((_, pos5)) => Ok((ProcView { name, body }, pos5)),
                        },
                    }
                },
            },
        },
    }
}

/// `{ "procedure" ident ";" block ";" }` behind the procedures `done`.
pub open spec fn p_procs(src: Source, pos: int, done: Seq<ProcView>) -> Parsed<Seq<ProcView>>
    decreases left(src, pos), 1int,
{
    match peek(src, pos) {
        Err(f) => Err(f),
        Ok(TokenKind::Keyword(Keyword::Procedure)) => {
            proof {
                lemma_lex_range(src, pos);
            }
            match forward(after(src, pos), p_proc(src, pos)) {
                Err(f) => Err(f),
                Ok((proc, pos1)) => p_procs(src, pos1, done.push(proc)),
            }
        },
        Ok(_) => Ok((done, pos)),
    }
}

/// `block`: constants, variables, procedures, and the statement.
pub open spec fn p_block(src: Source, pos: int) -> Parsed<BlockView>
    decreases left(src, pos), 2int,
{
    match forward(pos, p_consts(src, pos)) {
        Err(f) => Err(f),
        Ok((consts, pos1)) => match forward(pos1, p_vars(src, pos1)) {
            Err(f) => Err(f),
            Ok((vars, pos2)) => match p_procs(src, pos2, Seq::empty()) {
                Err(f) => Err(f),
                Ok((procs, pos3)) => match p_stmt(src, pos3) {
                    Err(f) => Err(f),
                    Ok((stmt, pos4)) => Ok((BlockView { consts, vars, procs, stmt }, pos4)),
                },
            },
        },
    }
}

/// `program ::= block "."`
pub open spec fn p_program(src: Source, pos: int) -> Parsed<ProgramView> {
    match p_block(src, pos) {
        Err(f) => Err(f),
        Ok((block, pos1)) => match expect(src, pos1, TokenKind::Dot) {
            Err(f) => Err(f),
            Ok((_, pos2)) => Ok((ProgramView { block }, pos2)),
        },
    }
}

/// Whether what was parsed from `pos` ends at or behind `pos`, and in the text.
pub open spec fn in_range<T>(src: Source, pos: int, r: Parsed<T>) -> bool {
    r matches Ok((_, end)) ==> 0 <= pos <= end <= src.text.len()
}

/// A token that is consumed lies behind the position and in the text.
pub proof fn lemma_token_range(src: Source, pos: int)
    ensures
        peek(src, pos) is Ok ==> 0 <= pos <= after(src, pos) <= src.text.len(),
        forall|want: TokenKind| in_range(src, pos, #[trigger] expect(src, pos, want)),
        in_range(src, pos, p_ident(src, pos)),
        in_range(src, pos, p_num(src, pos)),
        in_range(src, pos, p_cond_op(src, pos)),
{
    if 0 <= pos <= src.text.len() {
        lemma_lex_range(src, pos);
    }
}

/// A factor ends behind the position where it starts: the parser moves
/// forward only.
pub proof fn lemma_factor_range(src: Source, pos: int)
    ensures
        in_range(src, pos, p_factor(src, pos)),
    decreases left(src, pos), 1int,
{
    lemma_token_range(src, pos);
    if peek(src, pos) == Ok::<TokenKind, Fault>(TokenKind::ParenLeft) {
        lemma_group_range(src, pos);
    }
}

/// A group in parentheses ends behind the position where it starts.
pub proof fn lemma_group_range(src: Source, pos: int)
    ensures
        in_range(src, pos, p_group(src, pos)),
    decreases left(src, pos), 0int,
{
    lemma_token_range(src, pos);
    if let Ok((_, pos1)) = expect(src, pos, TokenKind::ParenLeft) {
        lemma_lex_range(src, pos);
        lemma_expr_range(src, pos1);
        if let Ok((_, pos2)) = p_expr(src, pos1) {
            lemma_token_range(src, pos2);
        }
    }
}

/// A term ends behind the position where it starts.
pub proof fn lemma_term_range(src: Source, pos: int)
    ensures
        in_range(src, pos, p_term(src, pos)),
    decreases left(src, pos), 3int,
{
    lemma_factor_range(src, pos);
    if let Ok((lhs, pos1)) = p_factor(src, pos) {
        lemma_term_rest_range(src, pos1, lhs);
    }
}

pub proof fn lemma_term_rest_range(src: Source, pos: int, lhs: ExprView)
    ensures
        in_range(src, pos, p_term_rest(src, pos, lhs)),
    decreases left(src, pos), 2int,
{
    lemma_token_range(src, pos);
    if let Ok(kind) = peek(src, pos) {
        if let Some(op) = term_op(kind) {
            lemma_lex_range(src, pos);
            let pos1 = after(src, pos);
            lemma_factor_range(src, pos1);
            if let Ok((rhs, pos2)) = p_factor(src, pos1) {
                lemma_term_rest_range(src, pos2, binary(op, lhs, rhs));
            }
        }
    }
}

/// An expression ends behind the position where it starts.
pub proof fn lemma_expr_range(src: Source, pos: int)
    ensures
        in_range(src, pos, p_expr(src, pos)),
    decreases left(src, pos), 5int,
{
    lemma_token_range(src, pos);
    if let Ok(kind) = peek(src, pos) {
        match sign_op(kind) {
            Some(op) => {
                lemma_lex_range(src, pos);
                let pos1 = after(src, pos);
                lemma_term_range(src, pos1);
                if let Ok((e, pos2)) = p_term(src, pos1) {
                    lemma_expr_rest_range(src, pos2, unary(op, e));
                }
            },
            None => {
                lemma_term_range(src, pos);
                if let Ok((e, pos2)) = p_term(src, pos) {
                    lemma_expr_rest_range(src, pos2, e);
                }
            },
        }
    }
}

pub proof fn lemma_expr_rest_range(src: Source, pos: int, lhs: ExprView)
    ensures
        in_range(src, pos, p_expr_rest(src, pos, lhs)),
    decreases left(src, pos), 4int,
{
    lemma_token_range(src, pos);
    if let Ok(kind) = peek(src, pos) {
        if let Some(op) = expr_op(kind) {
            lemma_lex_range(src, pos);
            let pos1 = after(src, pos);
            lemma_term_range(src, pos1);
            if let Ok((rhs, pos2)) = p_term(src, pos1) {
                lemma_expr_rest_range(src, pos2, binary(op, lhs, rhs));
            }
        }
    }
}

/// A condition ends behind the position where it starts.
pub proof fn lemma_cond_range(src: Source, pos: int)
    ensures
        in_range(src, pos, p_cond(src, pos)),
{
    lemma_token_range(src, pos);
    if let Ok(kind) = peek(src, pos) {
        if kind == TokenKind::Keyword(Keyword::Odd) {
            lemma_expr_range(src, after(src, pos));
        } else {
            lemma_expr_range(src, pos);
            if let Ok((lhs, pos1)) = p_expr(src, pos) {
                lemma_token_range(src, pos1);
                if let Ok((op, pos2)) = p_cond_op(src, pos1) {
                    lemma_expr_range(src, pos2);
                }
            }
        }
    }
}

proof fn lemma_simple_stmt_range(src: Source, pos: int)
    ensures
        in_range(src, pos, p_assign(src, pos)),
        in_range(src, pos, p_call(src, pos)),
        in_range(src, pos, p_read(src, pos)),
        in_range(src, pos, p_write(src, pos)),
{
    lemma_token_range(src, pos);
    if let Ok((_, pos1)) = p_ident(src, pos) {
        lemma_token_range(src, pos1);
        if let Ok((_, pos2)) = expect(src, pos1, TokenKind::Assign) {
            lemma_expr_range(src, pos2);
        }
    }
    if peek(src, pos) is Ok {
        lemma_token_range(src, after(src, pos));
        lemma_expr_range(src, after(src, pos));
    }
}

/// A statement ends at or behind the position where it starts.
pub proof fn lemma_stmt_range(src: Source, pos: int)
    ensures
        in_range(src, pos, p_stmt(src, pos)),
    decreases left(src, pos), 3int,
{
    lemma_token_range(src, pos);
    lemma_simple_stmt_range(src, pos);
    match peek(src, pos) {
        Ok(TokenKind::Keyword(Keyword::Begin)) => {
            lemma_begin_range(src, pos);
        },
        Ok(TokenKind::Keyword(Keyword::If)) => {
            lemma_if_range(src, pos);
        },
        Ok(TokenKind::Keyword(Keyword::While)) => {
            lemma_while_range(src, pos);
        },
        _ => {},
    }
}

pub proof fn lemma_begin_range(src: Source, pos: int)
    ensures
        in_range(src, pos, p_begin(src, pos)),
    decreases left(src, pos), 2int,
{
    lemma_token_range(src, pos);
    if let Ok((_, pos1)) = expect(src, pos, TokenKind::Keyword(Keyword::Begin)) {
        lemma_lex_range(src, pos);
        lemma_stmts_range(src, pos1);
        if let Ok((_, pos2)) = p_stmts(src, pos1) {
            lemma_token_range(src, pos2);
        }
    }
}

pub proof fn lemma_stmts_range(src: Source, pos: int)
    ensures
        in_range(src, pos, p_stmts(src, pos)),
    decreases left(src, pos), 4int,
{
    lemma_stmt_range(src, pos);
    if let Ok((first, pos1)) = p_stmt(src, pos) {
        lemma_stmts_rest_range(src, pos1, seq![first]);
    }
}

pub proof fn lemma_stmts_rest_range(src: Source, pos: int, done: Seq<StmtView>)
    ensures
        in_range(src, pos, p_stmts_rest(src, pos, done)),
    decreases left(src, pos), 1int,
{
    lemma_token_range(src, pos);
    if peek(src, pos) == Ok::<TokenKind, Fault>(TokenKind::Semi) {
        lemma_lex_range(src, pos);
        let pos1 = after(src, pos);
        lemma_stmt_range(src, pos1);
        if let Ok((s, pos2)) = p_stmt(src, pos1) {
            lemma_stmts_rest_range(src, pos2, done.push(s));
        }
    }
}

pub proof fn lemma_if_range(src: Source, pos: int)
    ensures
        in_range(src, pos, p_if(src, pos)),
    decreases left(src, pos), 2int,
{
    lemma_token_range(src, pos);
    if let Ok((_, pos1)) = expect(src, pos, TokenKind::Keyword(Keyword::If)) {
        lemma_lex_range(src, pos);
        lemma_cond_range(src, pos1);
        if let Ok((_, pos2)) = p_cond(src, pos1) {
            lemma_token_range(src, pos2);
            if let Ok((_, pos3)) = expect(src, pos2, TokenKind::Keyword(Keyword::Then)) {
                lemma_stmt_range(src, pos3);
            }
        }
    }
}

pub proof fn lemma_while_range(src: Source, pos: int)
    ensures
        in_range(src, pos, p_while(src, pos)),
    decreases left(src, pos), 2int,
{
    lemma_token_range(src, pos);
    if let Ok((_, pos1)) = expect(src, pos, TokenKind::Keyword(Keyword::While)) {
        lemma_lex_range(src, pos);
        lemma_cond_range(src, pos1);
        if let Ok((_, pos2)) = p_cond(src, pos1) {
            lemma_token_range(src, pos2);
            if let Ok((_, pos3)) = expect(src, pos2, TokenKind::Keyword(Keyword::Do)) {
                lemma_stmt_range(src, pos3);
            }
        }
    }
}

pub proof fn lemma_consts_rest_range(src: Source, pos: int, done: Seq<ConstView>)
    ensures
        in_range(src, pos, p_consts_rest(src, pos, done)),
        in_range(src, pos, p_const_assign(src, pos)),
    decreases left(src, pos),
{
    lemma_token_range(src, pos);
    if let Ok((_, pos1)) = p_ident(src, pos) {
        lemma_token_range(src, pos1);
        if let Ok((_, pos2)) = expect(src, pos1, TokenKind::Eq) {
            lemma_token_range(src, pos2);
        }
    }
    if peek(src, pos) == Ok::<TokenKind, Fault>(TokenKind::Comma) {
        lemma_lex_range(src, pos);
        let pos1 = after(src, pos);
        lemma_consts_rest_range(src, pos1, done);
        if let Ok((c, pos2)) = p_const_assign(src, pos1) {
            lemma_consts_rest_range(src, pos2, done.push(c));
        }
    }
}

pub proof fn lemma_vars_rest_range(src: Source, pos: int, done: Seq<Seq<char>>)
    ensures
        in_range(src, pos, p_vars_rest(src, pos, done)),
    decreases left(src, pos),
{
    lemma_token_range(src, pos);
    if peek(src, pos) == Ok::<TokenKind, Fault>(TokenKind::Comma) {
        lemma_lex_range(src, pos);
        let pos1 = after(src, pos);
        lemma_token_range(src, pos1);
        if let Ok((name, pos2)) = p_ident(src, pos1) {
            lemma_vars_rest_range(src, pos2, done.push(name));
        }
    }
}

/// Declarations end at or behind the position where they start.
pub proof fn lemma_decls_range(src: Source, pos: int)
    ensures
        in_range(src, pos, p_consts(src, pos)),
        in_range(src, pos, p_vars(src, pos)),
{
    lemma_token_range(src, pos);
    if peek(src, pos) is Ok {
        let pos1 = after(src, pos);
        lemma_token_range(src, pos1);
        lemma_consts_rest_range(src, pos1, Seq::empty());
        if let Ok((c, pos2)) = p_const_assign(src, pos1) {
            lemma_consts_rest_range(src, pos2, seq![c]);
        }
        if let Ok((name, pos2)) = p_ident(src, pos1) {
            lemma_vars_rest_range(src, pos2, seq![name]);
        }
    }
}

pub proof fn lemma_proc_range(src: Source, pos: int)
    ensures
        in_range(src, pos, p_proc(src, pos)),
        p_proc(src, pos) matches Ok((_, end)) ==> after(src, pos) <= end,
    decreases left(src, pos), 0int,
{
    lemma_token_range(src, pos);
    if let Ok((_, pos1)) = expect(src, pos, TokenKind::Keyword(Keyword::Procedure)) {
        lemma_lex_range(src, pos);
        lemma_token_range(src, pos1);
        if let Ok((_, pos2)) = p_ident(src, pos1) {
            lemma_token_range(src, pos2);
            if let Ok((_, pos3)) = expect(src, pos2, TokenKind::Semi) {
                lemma_block_range(src, pos3);
                if let Ok((_, pos4)) = p_block(src, pos3) {
                    lemma_token_range(src, pos4);
                }
            }
        }
    }
}

pub proof fn lemma_procs_range(src: Source, pos: int, done: Seq<ProcView>)
    ensures
        in_range(src, pos, p_procs(src, pos, done)),
    decreases left(src, pos), 1int,
{
    lemma_token_range(src, pos);
    if peek(src, pos) == Ok::<TokenKind, Fault>(TokenKind::Keyword(Keyword::Procedure)) {
        lemma_lex_range(src, pos);
        lemma_proc_range(src, pos);
        if let Ok((proc, pos1)) = p_proc(src, pos) {
            lemma_procs_range(src, pos1, done.push(proc));
        }
    }
}

/// A block ends at or behind the position where it starts.
pub proof fn lemma_block_range(src: Source, pos: int)
    ensures
        in_range(src, pos, p_block(src, pos)),
    decreases left(src, pos), 2int,
{
    lemma_decls_range(src, pos);
    if let Ok((_, pos1)) = p_consts(src, pos) {
        lemma_decls_range(src, pos1);
        if let Ok((_, pos2)) = p_vars(src, pos1) {
            lemma_procs_range(src, pos2, Seq::empty());
            if let Ok((_, pos3)) = p_procs(src, pos2, Seq::empty()) {
                lemma_stmt_range(src, pos3);
            }
        }
    }
}

/// A program ends behind the position where it starts, and in the text.
pub proof fn lemma_program_range(src: Source, pos: int)
    ensures
        in_range(src, pos, p_program(src, pos)),
{
    lemma_block_range(src, pos);
    if let Ok((_, pos1)) = p_block(src, pos) {
        lemma_token_range(src, pos1);
    }
}

} // verus!
