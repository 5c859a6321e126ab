//! The parser: recursive descent over the tokens of the lexer.
use vstd::prelude::*;
use crate::ast::{
    consts_view, lemma_stmt_view, procs_view, stmts_view, vars_view, AssignStmt, BinExpr, BinOp,
    BinaryCond, Block, CallStmt, Cond, CondOp, Const, Expr, Ident, IfStmt, OddCond, Proc, Program,
    ReadStmt, Stmt, SubBlock, UnExpr, UnOp, Var, WhileStmt, WriteStmt,
};
use crate::errors::{Error, ErrorKind, Result};
use crate::grammar::{
    after, decimal, expect, fault_at, left, p_assign, p_begin, p_binary_cond, p_block, p_call,
    p_cond, p_cond_op, p_const_assign, p_consts, p_consts_rest, p_expr, p_expr_rest, p_factor,
    p_group, p_ident, p_if, p_num, p_odd_cond, p_proc, p_procs, p_program, p_read, p_stmt, p_stmts,
    p_stmts_rest, p_term, p_term_rest, p_vars, p_vars_rest, p_while, p_write, peek, word, Fault,
    Parsed,
};
use crate::lexer::{is_digit, lemma_lex_range, lemma_num_digits, lex, span_of, Lexer, Source};
use crate::text::chars_of;
use crate::tokens::{Keyword as KW, Token, TokenKind as TK};
use crate::Num;

verus! {

/// The text that an error of the fault `f` is about: the characters of the
/// token for a character that starts no token and for a number that is too
/// large, and nothing for the others.
pub open spec fn subject_of(text: Seq<char>, f: Fault) -> Seq<char> {
    if f.kind == ErrorKind::UnexpectedChar || f.kind == ErrorKind::BadNumber {
        text.subrange(f.start, f.end)
    } else {
        Seq::empty()
    }
}

/// Whether `e` is the error for the fault `f` in the text `text` of `file`:
/// it has the kind of the fault, and the span of the token at which it was
/// found.
pub open spec fn reports(e: Error, text: Seq<char>, file: Seq<char>, f: Fault) -> bool {
    if f.kind == ErrorKind::SourceTooLarge {
        e.is(f.kind, Seq::empty())
    } else {
        e.is_at(f.kind, subject_of(text, f), span_of(text, f.start, f.end), file)
    }
}

/// Whether `r` is what the lexer gives for the token of `src` at or after `pos`.
pub open spec fn lexed_as(r: Result<Token>, src: Source, file: Seq<char>, pos: int) -> bool {
    let text = src.text;
    let lexed = lex(src, pos);
    match lexed.outcome {
        Ok(kind) => {
            &&& r matches Ok(token)
            &&& token.kind == kind
            &&& token.span == span_of(text, lexed.start, lexed.end)
            &&& token.fits(text)
            &&& token.fragment_spec(text) == text.subrange(lexed.start, lexed.end)
        },
        Err(kind) => r matches Err(e) && reports(
            e,
            text,
            file,
            Fault { kind, start: lexed.start, end: lexed.end },
        ),
    }
}

/// The digits of `digits` up to `n` write a number that is not larger than
/// the one that all of them write.
pub proof fn lemma_decimal_prefix(digits: Seq<char>, n: int)
    requires
        0 <= n <= digits.len(),
        forall|i: int| 0 <= i < digits.len() ==> is_digit(#[trigger] digits[i]),
    ensures
        0 <= decimal(digits.take(n)) <= decimal(digits),
    decreases digits.len() - n,
{
    lemma_decimal_nonnegative(digits.take(n));
    if n < digits.len() {
        lemma_decimal_prefix(digits, n + 1);
        assert(digits.take(n + 1).drop_last() =~= digits.take(n));
    } else {
        assert(digits.take(n) =~= digits);
    }
}

pub proof fn lemma_decimal_nonnegative(digits: Seq<char>)
    requires
        forall|i: int| 0 <= i < digits.len() ==> is_digit(#[trigger] digits[i]),
    ensures
        0 <= decimal(digits),
    decreases digits.len(),
{
    if digits.len() > 0 {
        lemma_decimal_nonnegative(digits.drop_last());
    }
}

pub struct Parser<'a> {
    lexer: Lexer<'a>,
    /// The next token, or a lexical error.
    token: Option<Result<Token>>,
    /// Where the lexer stood before it read the next token.
    mark: Ghost<int>,
}

impl<'a> Parser<'a> {
    /// The source text, with the classes of its characters.
    pub closed spec fn source(&self) -> Source {
        self.lexer.source()
    }

    /// The name of the file where the source text is from.
    pub closed spec fn origin(&self) -> Seq<char> {
        self.lexer.origin()
    }

    /// Index of the first character that was not parsed yet.
    pub closed spec fn position(&self) -> int {
        match self.token {
            Some(_) => self.mark@,
            None => self.lexer.cursor(),
        }
    }

    /// Whether the next token was read already, and is no error.
    pub closed spec fn peeked(&self) -> bool {
        self.token matches Some(Ok(_))
    }

    pub closed spec fn wf(&self) -> bool {
        &&& self.lexer.wf()
        &&& 0 <= self.lexer.cursor() <= self.lexer.source().text.len()
        &&& match self.token {
            Some(r) => {
                &&& 0 <= self.mark@ <= self.lexer.source().text.len()
                &&& self.lexer.cursor() == lex(self.lexer.source(), self.mark@).end
                &&& lexed_as(r, self.lexer.source(), self.lexer.origin(), self.mark@)
                &&& r is Ok ==> self.lexer.consumed() == word(self.lexer.source(), self.mark@)
            },
            None => true,
        }
    }

    /// Whether `after` is this parser with more of the same text behind it.
    pub open spec fn moved(&self, after: &Self) -> bool {
        &&& after.wf()
        &&& after.source() == self.source()
        &&& after.origin() == self.origin()
        &&& 0 <= self.position() <= after.position() <= self.source().text.len()
    }

    /// Whether `after` and `r` are what parsing a construct with the outcome
    /// `expected` leaves, where `model` gives the model of what was parsed:
    /// that construct and the position behind it, or the error of its fault.
    pub open spec fn gave_as<T, V>(
        &self,
        after: &Self,
        expected: Parsed<V>,
        r: Result<T>,
        model: spec_fn(T) -> V,
    ) -> bool {
        &&& self.moved(after)
        &&& match expected {
            Ok((v, pos)) => r matches Ok(x) && model(x) == v && after.position() == pos,
            Err(f) => r matches Err(e) && reports(e, self.source().text, self.origin(), f),
        }
    }

    /// Whether `after` and `r` are what parsing a construct with the outcome
    /// `expected` leaves.
    pub open spec fn gave<T: View>(
        &self,
        after: &Self,
        expected: Parsed<T::V>,
        r: Result<T>,
    ) -> bool {
        self.gave_as(after, expected, r, |x: T| x@)
    }

    pub fn new(lexer: Lexer<'a>) -> (parser: Self)
        requires
            lexer.wf(),
        ensures
            parser.wf(),
            parser.source() == lexer.source(),
            parser.origin() == lexer.origin(),
            parser.position() == lexer.cursor(),
    {
        proof {
            lexer.lemma_cursor_in_text();
        }
        Self { lexer, token: None, mark: Ghost(0) }
    }

    /// The next token, which is consumed.
    fn next_token(&mut self) -> (r: Result<Token>)
        requires
            old(self).wf(),
        ensures
            old(self).moved(final(self)),
            final(self).position() == after(old(self).source(), old(self).position()),
            lexed_as(r, old(self).source(), old(self).origin(), old(self).position()),
            r is Ok ==> final(self).lexer.consumed() == word(
                old(self).source(),
                old(self).position(),
            ),
    {
        proof {
            lemma_lex_range(self.source(), self.position());
        }
        match self.token.take() {
            Some(maybe_token) => maybe_token,
            None => self.lexer.next_token(),
        }
    }

    /// The kind of the next token, which is not consumed.
    fn peek(&mut self) -> (r: Result<TK>)
        requires
            old(self).wf(),
        ensures
            old(self).moved(final(self)),
            final(self).position() == old(self).position(),
            match peek(old(self).source(), old(self).position()) {
                Ok(kind) => r == Ok::<TK, Error>(kind) && final(self).peeked(),
                Err(f) => r matches Err(e) && reports(
                    e,
                    old(self).source().text,
                    old(self).origin(),
                    f,
                ),
            },
    {
        proof {
            lemma_lex_range(self.source(), self.position());
        }
        if self.token.is_none() {
            let ghost mark = self.lexer.cursor();
            let token = self.lexer.next_token();
            self.token = Some(token);
            self.mark = Ghost(mark);
        }
        match self.token.as_ref().unwrap() {
            Ok(token) => Ok(token.kind),
            // Cloning the error greatly simplifies the parselets.
            Err(err) => Err(err.clone()),
        }
    }

    /// The error of `kind` at the next token, which was peeked at.
    fn error_here(&self, kind: ErrorKind) -> (e: Error)
        requires
            self.wf(),
            self.peeked(),
            kind != ErrorKind::SourceTooLarge,
            kind != ErrorKind::UnexpectedChar,
            kind != ErrorKind::BadNumber,
        ensures
            reports(
                e,
                self.source().text,
                self.origin(),
                fault_at(self.source(), self.position(), kind),
            ),
    {
        proof {
            reveal_strlit("");
            assert(""@ =~= Seq::<char>::empty());
        }
        match self.token.as_ref().unwrap() {
            Ok(token) => Error::located(kind, "", token.span, self.lexer.file()),
            Err(err) => err.clone(),
        }
    }

    /// The next token, which has to be of the kind `token_kind`.
    fn consume(&mut self, token_kind: TK) -> (r: Result<Token>)
        requires
            old(self).wf(),
        ensures
            old(self).gave_as(
                final(self),
                expect(old(self).source(), old(self).position(), token_kind),
                r,
                |t: Token| (),
            ),
            r is Ok ==> lexed_as(r, old(self).source(), old(self).origin(), old(self).position()),
            r is Ok ==> final(self).lexer.consumed() == word(
                old(self).source(),
                old(self).position(),
            ),
    {
        let kind = self.peek()?;
        if kind == token_kind {
            self.next_token()
        } else {
            Err(self.error_here(ErrorKind::Expected { want: token_kind, found: kind }))
        }
    }

    pub fn parse_program(&mut self) -> (r: Result<Program>)
        requires
            old(self).wf(),
        ensures
            old(self).gave(final(self), p_program(old(self).source(), old(self).position()), r),
    {
        let block = self.parse_block()?;
        self.consume(TK::Dot)?;

        Ok(Program { block })
    }

    fn parse_block(&mut self) -> (r: Result<Block>)
        requires
            old(self).wf(),
        ensures
            old(self).gave(final(self), p_block(old(self).source(), old(self).position()), r),
        decreases left(old(self).source(), old(self).position()), 2int,
    {
        let consts = self.parse_consts()?;
        let vars = self.parse_vars()?;
        let procs = self.parse_procedures()?;
        let stmt = self.parse_stmt()?;
        let block = Block { consts, vars, procs, stmt };
        proof {
            crate::ast::lemma_block_view(&block);
        }
        Ok(block)
    }

    fn parse_consts(&mut self) -> (r: Result<Vec<Const>>)
        requires
            old(self).wf(),
        ensures
            old(self).gave_as(
                final(self),
                p_consts(old(self).source(), old(self).position()),
                r,
                |v: Vec<Const>| consts_view(v@),
            ),
    {
        let ghost text = self.source();
        let ghost goal = p_consts(text, self.position());
        let mut consts: Vec<Const> = Vec::new();
        // `const` section is optional
        if self.peek()? == TK::Keyword(KW::Const) {
            self.next_token()?;
        } else {
            assert(consts_view(consts@) =~= Seq::empty());
            return Ok(consts);
        }

        // Must have at least one constant declaration.
        let first = self.parse_const_assign()?;
        consts.push(first);
        assert(consts_view(consts@) =~= seq![first@]);

        loop
            invariant_except_break
                p_consts_rest(text, self.position(), consts_view(consts@)) == goal,
            invariant
                old(self).moved(self),
                text == old(self).source(),
                goal == p_consts(text, old(self).position()),
            ensures
                old(self).moved(self),
                goal == Ok::<(Seq<crate::ast::ConstView>, int), Fault>(
                    (consts_view(consts@), self.position()),
                ),
            decreases left(text, self.position()),
        {
            let ghost done = consts_view(consts@);
            proof {
                lemma_lex_range(text, self.position());
            }
            match self.peek()? {
                TK::Comma => {
                    self.next_token()?;
                    let next = self.parse_const_assign()?;
                    consts.push(next);
                    assert(consts_view(consts@) =~= done.push(next@));
                },
                TK::Semi => {
                    self.next_token()?;
                    break ;
                },
                TK::Eof => {
                    return Err(self.error_here(ErrorKind::UnexpectedEof));
                },
                kind => {
                    return Err(self.error_here(ErrorKind::ExpectedCommaOrSemi { found: kind }));
                },
            }
        }

        Ok(consts)
    }

    fn parse_const_assign(&mut self) -> (r: Result<Const>)
        requires
            old(self).wf(),
        ensures
            old(self).gave(
                final(self),
                p_const_assign(old(self).source(), old(self).position()),
                r,
            ),
    {
        let ident = self.parse_ident()?;
        self.consume(TK::Eq)?;
        let value = self.parse_num()?;

        Ok(Const { ident, value })
    }

    fn parse_vars(&mut self) -> (r: Result<Vec<Var>>)
        requires
            old(self).wf(),
        ensures
            old(self).gave_as(
                final(self),
                p_vars(old(self).source(), old(self).position()),
                r,
                |v: Vec<Var>| vars_view(v@),
            ),
    {
        let ghost text = self.source();
        let ghost goal = p_vars(text, self.position());
        let mut vars: Vec<Var> = Vec::new();
        // `var` section is optional
        if self.peek()? == TK::Keyword(KW::Var) {
            self.next_token()?;
        } else {
            assert(vars_view(vars@) =~= Seq::empty());
            return Ok(vars);
        }

        // Must have at least one variable declaration.
        let first = self.parse_ident()?;
        let ghost name = first@;
        vars.push(Var { ident: first });
        assert(vars_view(vars@) =~= seq![name]);

        loop
            invariant_except_break
                p_vars_rest(text, self.position(), vars_view(vars@)) == goal,
            invariant
                old(self).moved(self),
                text == old(self).source(),
                goal == p_vars(text, old(self).position()),
            ensures
                old(self).moved(self),
                goal == Ok::<(Seq<Seq<char>>, int), Fault>((vars_view(vars@), self.position())),
            decreases left(text, self.position()),
        {
            let ghost done = vars_view(vars@);
            proof {
                lemma_lex_range(text, self.position());
            }
            match self.peek()? {
                TK::Comma => {
                    self.next_token()?;
                    let next = self.parse_ident()?;
                    let ghost name = next@;
                    vars.push(Var { ident: next });
                    assert(vars_view(vars@) =~= done.push(name));
                },
                TK::Semi => {
                    self.next_token()?;
                    break ;
                },
                TK::Eof => {
                    return Err(self.error_here(ErrorKind::UnexpectedEof));
                },
                kind => {
                    return Err(self.error_here(ErrorKind::ExpectedCommaOrSemi { found: kind }));
                },
            }
        }

        Ok(vars)
    }

    fn parse_procedures(&mut self) -> (r: Result<Vec<Proc>>)
        requires
            old(self).wf(),
        ensures
            old(self).gave_as(
                final(self),
                p_procs(old(self).source(), old(self).position(), Seq::empty()),
                r,
                |v: Vec<Proc>| procs_view(v@),
            ),
        decreases left(old(self).source(), old(self).position()), 1int,
    {
        let ghost text = self.source();
        let ghost goal = p_procs(text, self.position(), Seq::empty());
        let mut procs: Vec<Proc> = Vec::new();
        assert(procs_view(procs@) =~= Seq::empty());

        // Zero or more procedures.
        loop
            invariant_except_break
                p_procs(text, self.position(), procs_view(procs@)) == goal,
            invariant
                old(self).moved(self),
                text == old(self).source(),
                goal == p_procs(text, old(self).position(), Seq::empty()),
            ensures
                old(self).moved(self),
                goal == Ok::<(Seq<crate::ast::ProcView>, int), Fault>(
                    (procs_view(procs@), self.position()),
                ),
            decreases left(text, self.position()),
        {
            let ghost done = procs_view(procs@);
            proof {
                lemma_lex_range(text, self.position());
            }
            match self.peek()? {
                TK::Keyword(KW::Procedure) => {
                    let next = self.parse_procedure()?;
                    let ghost model = next@;
                    procs.push(next);
                    assert(procs_view(procs@) =~= done.push(model));
                },
                _ => {
                    break ;
                },
            }
        }

        Ok(procs)
    }

    fn parse_procedure(&mut self) -> (r: Result<Proc>)
        requires
            old(self).wf(),
        ensures
            old(self).gave(final(self), p_proc(old(self).source(), old(self).position()), r),
            r is Ok ==> final(self).position() >= after(old(self).source(), old(self).position()),
        decreases left(old(self).source(), old(self).position()), 0int,
    {
        proof {
            lemma_lex_range(self.source(), self.position());
        }
        self.consume(TK::Keyword(KW::Procedure))?;
        let name = self.parse_ident()?;
        self.consume(TK::Semi)?;
        let body = self.parse_block()?;
        self.consume(TK::Semi)?;
        Ok(Proc { name, body })
    }

    #[verifier::rlimit(100)]
    fn parse_stmts(&mut self) -> (r: Result<Vec<Stmt>>)
        requires
            old(self).wf(),
        ensures
            old(self).gave_as(
                final(self),
                p_stmts(old(self).source(), old(self).position()),
                r,
                |v: Vec<Stmt>| stmts_view(v@),
            ),
        decreases left(old(self).source(), old(self).position()), 4int,
    {
        let ghost text = self.source();
        let ghost goal = p_stmts(text, self.position());
        // Must have at least one statement.
        let mut stmts: Vec<Stmt> = Vec::new();
        let first = self.parse_stmt()?;
        let ghost model = first@;
        stmts.push(first);
        assert(stmts_view(stmts@) =~= seq![model]);

        loop
            invariant_except_break
                p_stmts_rest(text, self.position(), stmts_view(stmts@)) == goal,
            invariant
                old(self).moved(self),
                text == old(self).source(),
                goal == p_stmts(text, old(self).position()),
            ensures
                old(self).moved(self),
                goal == Ok::<(Seq<crate::ast::StmtView>, int), Fault>(
                    (stmts_view(stmts@), self.position()),
                ),
            decreases left(text, self.position()),
        {
            let ghost done = stmts_view(stmts@);
            proof {
                lemma_lex_range(text, self.position());
            }
            match self.peek()? {
                TK::Keyword(KW::End) => {
                    break ;
                },
                TK::Semi => {
                    self.next_token()?;  // ;
                    let next = self.parse_stmt()?;
                    let ghost model = next@;
                    stmts.push(next);
                    assert(stmts_view(stmts@) =~= done.push(model));
                },
                TK::Eof => {
                    return Err(self.error_here(ErrorKind::UnexpectedEof));
                },
                kind => {
                    return Err(self.error_here(ErrorKind::ExpectedSemiOrEnd { found: kind }));
                },
            }
        }

        Ok(stmts)
    }

    #[verifier::rlimit(100)]
    fn parse_stmt(&mut self) -> (r: Result<Stmt>)
        requires
            old(self).wf(),
        ensures
            old(self).gave(final(self), p_stmt(old(self).source(), old(self).position()), r),
        decreases left(old(self).source(), old(self).position()), 3int,
    {
        let kind = self.peek()?;
        match kind {
            TK::Ident => {
                let part = self.parse_assign()?;
                Ok(Stmt::Assign(Box::new(part)))
            },
            TK::Keyword(KW::Call) => {
                let part = self.parse_call()?;
                Ok(Stmt::Call(Box::new(part)))
            },
            TK::Keyword(KW::Read) => {
                let part = self.parse_read()?;
                Ok(Stmt::Read(Box::new(part)))
            },
            TK::Keyword(KW::Write) => {
                let part = self.parse_write()?;
                Ok(Stmt::Write(part))
            },
            TK::Keyword(KW::Begin) => {
                let part = self.parse_begin()?;
                let stmt = Stmt::SubBlock(part);
                proof {
                    lemma_stmt_view(&stmt);
                }
                Ok(stmt)
            },
            TK::Keyword(KW::If) => {
                let part = self.parse_if()?;
                Ok(Stmt::If(Box::new(part)))
            },
            TK::Keyword(KW::While) => {
                let part = self.parse_while()?;
                Ok(Stmt::While(Box::new(part)))
            },
            _ => Ok(Self::empty_stmt()),
        }
    }

    /// The empty statement: a sub-block without statements.
    fn empty_stmt() -> (stmt: Stmt)
        ensures
            stmt@ == crate::grammar::empty_stmt(),
    {
        let stmt = Stmt::SubBlock(SubBlock { stmts: Vec::new() });
        proof {
            lemma_stmt_view(&stmt);
            assert(stmts_view(Seq::<Stmt>::empty()) =~= Seq::empty());
        }
        stmt
    }

    fn parse_assign(&mut self) -> (r: Result<AssignStmt>)
        requires
            old(self).wf(),
        ensures
            old(self).gave(final(self), p_assign(old(self).source(), old(self).position()), r),
    {
        let lhs = self.parse_ident()?;
        self.expect_op(TK::Assign)?;
        let rhs = self.parse_expr()?;
        Ok(AssignStmt { lhs, rhs })
    }

    fn parse_call(&mut self) -> (r: Result<CallStmt>)
        requires
            old(self).wf(),
        ensures
            old(self).gave(final(self), p_call(old(self).source(), old(self).position()), r),
    {
        self.consume(TK::Keyword(KW::Call))?;
        let name = self.parse_ident()?;
        Ok(CallStmt { name })
    }

    fn parse_write(&mut self) -> (r: Result<WriteStmt>)
        requires
            old(self).wf(),
        ensures
            old(self).gave(final(self), p_write(old(self).source(), old(self).position()), r),
    {
        self.consume(TK::Keyword(KW::Write))?;
        let expr = self.parse_expr()?;

        Ok(WriteStmt { expr })
    }

    fn parse_read(&mut self) -> (r: Result<ReadStmt>)
        requires
            old(self).wf(),
        ensures
            old(self).gave(final(self), p_read(old(self).source(), old(self).position()), r),
    {
        self.consume(TK::Keyword(KW::Read))?;
        let name = self.parse_ident()?;

        Ok(ReadStmt { name })
    }

    fn parse_begin(&mut self) -> (r: Result<SubBlock>)
        requires
            old(self).wf(),
        ensures
            old(self).gave(final(self), p_begin(old(self).source(), old(self).position()), r),
        decreases left(old(self).source(), old(self).position()), 2int,
    {
        proof {
            lemma_lex_range(self.source(), self.position());
        }
        self.consume(TK::Keyword(KW::Begin))?;
        let stmts = self.parse_stmts()?;
        self.consume(TK::Keyword(KW::End))?;

        Ok(SubBlock { stmts })
    }

    fn parse_if(&mut self) -> (r: Result<IfStmt>)
        requires
            old(self).wf(),
        ensures
            old(self).gave(final(self), p_if(old(self).source(), old(self).position()), r),
        decreases left(old(self).source(), old(self).position()), 2int,
    {
        proof {
            lemma_lex_range(self.source(), self.position());
        }
        self.consume(TK::Keyword(KW::If))?;
        let head = self.parse_cond()?;
        self.consume(TK::Keyword(KW::Then))?;
        let body = self.parse_stmt()?;
        Ok(IfStmt { head, body })
    }

    fn parse_while(&mut self) -> (r: Result<WhileStmt>)
        requires
            old(self).wf(),
        ensures
            old(self).gave(final(self), p_while(old(self).source(), old(self).position()), r),
        decreases left(old(self).source(), old(self).position()), 2int,
    {
        proof {
            lemma_lex_range(self.source(), self.position());
        }
        self.consume(TK::Keyword(KW::While))?;
        let head = self.parse_cond()?;
        self.consume(TK::Keyword(KW::Do))?;
        let body = self.parse_stmt()?;
        Ok(WhileStmt { head, body })
    }

    fn parse_cond(&mut self) -> (r: Result<Cond>)
        requires
            old(self).wf(),
        ensures
            old(self).gave(final(self), p_cond(old(self).source(), old(self).position()), r),
    {
        if self.peek()? == TK::Keyword(KW::Odd) {
            Ok(Cond::Odd(self.parse_odd_cond()?))
        } else {
            Ok(Cond::Bin(self.parse_binary_cond()?))
        }
    }

    fn parse_odd_cond(&mut self) -> (r: Result<OddCond>)
        requires
            old(self).wf(),
        ensures
            old(self).gave(final(self), p_odd_cond(old(self).source(), old(self).position()), r),
    {
        self.consume(TK::Keyword(KW::Odd))?;
        let expr = self.parse_expr()?;
        Ok(OddCond { expr })
    }

    fn parse_binary_cond(&mut self) -> (r: Result<BinaryCond>)
        requires
            old(self).wf(),
        ensures
            old(self).gave(final(self), p_binary_cond(old(self).source(), old(self).position()), r),
    {
        let lhs = self.parse_expr()?;
        let op = self.parse_cond_op()?;
        let rhs = self.parse_expr()?;
        Ok(BinaryCond { op, lhs, rhs })
    }

    fn parse_cond_op(&mut self) -> (r: Result<CondOp>)
        requires
            old(self).wf(),
        ensures
            old(self).gave_as(
                final(self),
                p_cond_op(old(self).source(), old(self).position()),
                r,
                |op: CondOp| op,
            ),
    {
        let kind = self.peek()?;
        let op = match kind {
            TK::Eq => CondOp::Eq,
            TK::Hash => CondOp::NotEq,
            TK::Less => CondOp::Less,
            TK::LessEq => CondOp::LessEq,
            TK::Great => CondOp::Great,
            TK::GreatEq => CondOp::GreatEq,
            kind => {
                return Err(self.error_here(ErrorKind::ExpectedCondOp { found: kind }));
            },
        };
        self.next_token()?;
        Ok(op)
    }

    /// The next token, which has to be the operator `token_kind`.
    fn expect_op(&mut self, token_kind: TK) -> (r: Result<Token>)
        requires
            old(self).wf(),
        ensures
            old(self).gave_as(
                final(self),
                expect(old(self).source(), old(self).position(), token_kind),
                r,
                |t: Token| (),
            ),
    {
        self.consume(token_kind)
    }

    fn parse_expr(&mut self) -> (r: Result<Expr>)
        requires
            old(self).wf(),
        ensures
            old(self).gave(final(self), p_expr(old(self).source(), old(self).position()), r),
        decreases left(old(self).source(), old(self).position()), 5int,
    {
        let ghost text = self.source();
        let ghost goal = p_expr(text, self.position());
        proof {
            lemma_lex_range(text, self.position());
        }
        // Unary expression
        let mut lhs = match self.peek()? {
            TK::Plus => {
                self.next_token()?;  // +
                let expr = self.parse_term()?;
                Expr::Unary(Box::new(UnExpr { op: UnOp::Pos, expr }))
            },
            TK::Minus => {
                self.next_token()?;  // -
                let expr = self.parse_term()?;
                Expr::Unary(Box::new(UnExpr { op: UnOp::Neg, expr }))
            },
            _ => self.parse_term()?,
        };

        // Binary expression (zero or more)
        loop
            invariant_except_break
                p_expr_rest(text, self.position(), lhs@) == goal,
            invariant
                old(self).moved(self),
                text == old(self).source(),
                goal == p_expr(text, old(self).position()),
            ensures
                old(self).moved(self),
                goal == Ok::<(crate::ast::ExprView, int), Fault>((lhs@, self.position())),
            decreases left(text, self.position()),
        {
            proof {
                lemma_lex_range(text, self.position());
            }
            match self.peek()? {
                TK::Plus => {
                    self.next_token()?;  // +
                    let rhs = self.parse_term()?;
                    lhs = Expr::Binary(Box::new(BinExpr { op: BinOp::Add, lhs, rhs }));
                },
                TK::Minus => {
                    self.next_token()?;  // -
                    let rhs = self.parse_term()?;
                    lhs = Expr::Binary(Box::new(BinExpr { op: BinOp::Sub, lhs, rhs }));
                },
                _ => {
                    break ;
                },
            }
        }

        Ok(lhs)
    }

    fn parse_term(&mut self) -> (r: Result<Expr>)
        requires
            old(self).wf(),
        ensures
            old(self).gave(final(self), p_term(old(self).source(), old(self).position()), r),
        decreases left(old(self).source(), old(self).position()), 3int,
    {
        let ghost text = self.source();
        let ghost goal = p_term(text, self.position());
        let mut lhs = self.parse_factor()?;

        // Binary expression (zero or more)
        loop
            invariant_except_break
                p_term_rest(text, self.position(), lhs@) == goal,
            invariant
                old(self).moved(self),
                text == old(self).source(),
                goal == p_term(text, old(self).position()),
            ensures
                old(self).moved(self),
                goal == Ok::<(crate::ast::ExprView, int), Fault>((lhs@, self.position())),
            decreases left(text, self.position()),
        {
            proof {
                lemma_lex_range(text, self.position());
            }
            match self.peek()? {
                TK::Star => {
                    self.next_token()?;  // *
                    let rhs = self.parse_factor()?;
                    lhs = Expr::Binary(Box::new(BinExpr { op: BinOp::Mul, lhs, rhs }));
                },
                TK::Slash => {
                    self.next_token()?;  // /
                    let rhs = self.parse_factor()?;
                    lhs = Expr::Binary(Box::new(BinExpr { op: BinOp::Div, lhs, rhs }));
                },
                _ => {
                    break ;
                },
            }
        }

        Ok(lhs)
    }

    fn parse_factor(&mut self) -> (r: Result<Expr>)
        requires
            old(self).wf(),
        ensures
            old(self).gave(final(self), p_factor(old(self).source(), old(self).position()), r),
        decreases left(old(self).source(), old(self).position()), 1int,
    {
        match self.peek()? {
            TK::Ident => Ok(Expr::Name(self.parse_ident()?)),
            TK::Num => Ok(Expr::Num(self.parse_num()?)),
            TK::ParenLeft => self.parse_group(),
            kind => Err(self.error_here(ErrorKind::ExpectedFactor { found: kind })),
        }
    }

    fn parse_ident(&mut self) -> (r: Result<Ident>)
        requires
            old(self).wf(),
        ensures
            old(self).gave(final(self), p_ident(old(self).source(), old(self).position()), r),
    {
        match self.peek()? {
            TK::Ident => {
                self.next_token()?;
                Ok(Ident { name: self.lexer.fragment() })
            },
            kind => Err(self.error_here(ErrorKind::ExpectedIdent { found: kind })),
        }
    }

    fn parse_num(&mut self) -> (r: Result<Num>)
        requires
            old(self).wf(),
        ensures
            old(self).gave(final(self), p_num(old(self).source(), old(self).position()), r),
    {
        let ghost text = self.source();
        let ghost pos = self.position();
        let token = self.consume(TK::Num)?;
        let fragment = self.lexer.fragment();
        let digits = chars_of(fragment.as_str());
        assert forall|i: int| 0 <= i < digits@.len() implies is_digit(#[trigger] digits@[i]) by {
            lemma_lex_range(text, pos);
            lemma_num_digits(text, pos, lex(text, pos).start + i);
        }
        let mut value: i64 = 0;
        let mut i: usize = 0;
        while i < digits.len()
            invariant
                i <= digits@.len(),
                forall|i: int| 0 <= i < digits@.len() ==> is_digit(#[trigger] digits@[i]),
                value == decimal(digits@.take(i as int)),
                0 <= value <= i32::MAX,
                digits@ == word(text, pos),
                fragment@ == word(text, pos),
                token.span == span_of(text.text, lex(text, pos).start, lex(text, pos).end),
                text == old(self).source(),
                pos == old(self).position(),
                old(self).moved(self),
                expect(text, pos, TK::Num) == Ok::<((), int), Fault>(((), self.position())),
            decreases digits@.len() - i,
        {
            let digit = (digits[i] as u32 - '0' as u32) as i64;
            proof {
                assert(digits@.take(i + 1).drop_last() =~= digits@.take(i as int));
                lemma_decimal_prefix(digits@, i + 1);
            }
            value = value * 10 + digit;
            i = i + 1;
            if value > i32::MAX as i64 {
                return Err(
                    Error::located(
                        ErrorKind::BadNumber,
                        fragment.as_str(),
                        token.span,
                        self.lexer.file(),
                    ),
                );
            }
        }
        assert(digits@.take(i as int) =~= digits@);
        Ok(value as i32)
    }

    fn parse_group(&mut self) -> (r: Result<Expr>)
        requires
            old(self).wf(),
        ensures
            old(self).gave(final(self), p_group(old(self).source(), old(self).position()), r),
        decreases left(old(self).source(), old(self).position()), 0int,
    {
        proof {
            lemma_lex_range(self.source(), self.position());
        }
        self.consume(TK::ParenLeft)?;
        let expr = self.parse_expr()?;
        self.consume(TK::ParenRight)?;
        Ok(expr)
    }
}

} // verus!
