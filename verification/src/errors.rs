//! Errors of the four stages: lexer, parser, compiler, runtime.
use vstd::prelude::*;
use crate::text::str_eq;
use crate::tokens::{covered, covers, excerpt, TokenKind};

verus! {

pub type Result<T> = std::result::Result<T, self::Error>;

#[derive(Debug, Clone, Copy, PartialEq, Eq, Structural)]
pub enum Stage {
    Lexer,
    Parser,
    Compiler,
    Runtime,
}

#[derive(Debug)]
pub struct StageParseError {
    /// The value that should have been the name of a stage.
    pub input: String,
}

/// What went wrong. The text of the message is made of the kind, and of the
/// subject that the error carries: a character, a literal or a name.
#[derive(Debug, Clone, Copy, PartialEq, Eq, Structural)]
pub enum ErrorKind {
    /// The source text is longer than a span can address.
    SourceTooLarge,
    /// The subject is a character that starts no token.
    UnexpectedChar,
    /// One kind of token was required, another was found.
    Expected { want: TokenKind, found: TokenKind },
    ExpectedCommaOrSemi { found: TokenKind },
    ExpectedSemiOrEnd { found: TokenKind },
    ExpectedCondOp { found: TokenKind },
    ExpectedFactor { found: TokenKind },
    ExpectedIdent { found: TokenKind },
    UnexpectedEof,
    /// The subject is a number literal that is no signed 32-bit value.
    BadNumber,
    /// The subject is a name that no declaration in scope has.
    Unresolved,
    /// The subject is the name of a constant that was called.
    ExpectedProcFoundConst,
    /// The subject is the name of a variable that was called.
    ExpectedProcFoundVar,
    /// The subject is the name of a constant that was stored to.
    ExpectedVarFoundConst,
    /// The subject is the name of a procedure that was stored to.
    ExpectedVarFoundProc,
    /// The subject is the name of a procedure that was used as a value.
    ProcInExpr,
    /// The syntax tree holds an error node.
    ErrorNode,
    /// Procedures are nested deeper than a level can count.
    TooDeep,
    /// A block declares more variables than an offset can address.
    TooManyVars,
    /// The program needs more instructions than the code space holds.
    CodeTooLarge,
    DivisionByZero,
    StackOverflow,
    StackUnderflow,
    /// Control was sent to an address outside the code space.
    InvalidJump,
    /// A static or dynamic link does not point into the stack.
    InvalidFrame,
    /// The machine was stopped after the number of steps it was allowed.
    StepLimit,
}

/// Code location in PL/0 script.
#[derive(Debug)]
pub struct GuestLoc {
    /// `(byte_offset, size)`
    pub span: (u32, u32),
    pub file: String,
}

#[derive(Debug)]
pub struct Error {
    pub kind: ErrorKind,
    pub subject: String,
    pub guest_loc: Option<GuestLoc>,
    pub note: Option<String>,
}

pub struct ErrorPretty<'a, 'b> {
    pub err: &'a self::Error,
    pub text: &'b str,
}

pub trait ResultExt: Sized {
    /// Whether `r` is this value with `note` attached to its error, if it has one.
    spec fn noted(self, note: Seq<char>, r: Self) -> bool;

    /// Attaches a note to the error, if there is one.
    fn with_note(self, note: &str) -> (r: Self)
        ensures
            self.noted(note@, r),
    ;
}

impl Stage {
    pub open spec fn name_spec(self) -> Seq<char> {
        match self {
            Stage::Lexer => "lexer"@,
            Stage::Parser => "parser"@,
            Stage::Compiler => "compiler"@,
            Stage::Runtime => "runtime"@,
        }
    }

    pub fn name(&self) -> (r: &'static str)
        ensures
            r@ == self.name_spec(),
    {
        match self {
            Stage::Lexer => "lexer",
            Stage::Parser => "parser",
            Stage::Compiler => "compiler",
            Stage::Runtime => "runtime",
        }
    }

    /// No two stages share a name.
    pub proof fn lemma_names_differ(a: Stage, b: Stage)
        requires
            a.name_spec() == b.name_spec(),
        ensures
            a == b,
    {
        reveal_strlit("lexer");
        reveal_strlit("parser");
        reveal_strlit("compiler");
        reveal_strlit("runtime");
        assert("lexer"@.len() == 5);
        assert("parser"@.len() == 6);
        assert("compiler"@.len() == 8);
        assert("runtime"@.len() == 7);
    }

    /// The stage whose name is `value`.
    pub fn try_from(value: &str) -> (r: std::result::Result<Stage, StageParseError>)
        ensures
            match r {
                Ok(stage) => value@ == stage.name_spec(),
                Err(e) => e.input@ == value@ && forall|s: Stage| value@ != s.name_spec(),
            },
    {
        if str_eq(value, "lexer") {
            Ok(Stage::Lexer)
        } else if str_eq(value, "parser") {
            Ok(Stage::Parser)
        } else if str_eq(value, "compiler") {
            Ok(Stage::Compiler)
        } else if str_eq(value, "runtime") {
            Ok(Stage::Runtime)
        } else {
            Err(StageParseError { input: String::from_str(value) })
        }
    }
}

impl StageParseError {
    pub fn to_string(&self) -> (r: String)
        ensures
            r@ == "failed to parse error stage: "@ + self.input@,
    {
        let mut s = String::from_str("failed to parse error stage: ");
        s.append(self.input.as_str());
        s
    }
}

impl ErrorKind {
    /// The stage at which an error of this kind comes up.
    pub open spec fn stage_spec(self) -> Stage {
        match self {
            ErrorKind::SourceTooLarge | ErrorKind::UnexpectedChar => Stage::Lexer,
            ErrorKind::Expected { .. }
            | ErrorKind::ExpectedCommaOrSemi { .. }
            | ErrorKind::ExpectedSemiOrEnd { .. }
            | ErrorKind::ExpectedCondOp { .. }
            | ErrorKind::ExpectedFactor { .. }
            | ErrorKind::ExpectedIdent { .. }
            | ErrorKind::UnexpectedEof
            | ErrorKind::BadNumber => Stage::Parser,
            ErrorKind::Unresolved
            | ErrorKind::ExpectedProcFoundConst
            | ErrorKind::ExpectedProcFoundVar
            | ErrorKind::ExpectedVarFoundConst
            | ErrorKind::ExpectedVarFoundProc
            | ErrorKind::ProcInExpr
            | ErrorKind::ErrorNode
            | ErrorKind::TooDeep
            | ErrorKind::TooManyVars
            | ErrorKind::CodeTooLarge => Stage::Compiler,
            ErrorKind::DivisionByZero
            | ErrorKind::StackOverflow
            | ErrorKind::StackUnderflow
            | ErrorKind::InvalidJump
            | ErrorKind::InvalidFrame
            | ErrorKind::StepLimit => Stage::Runtime,
        }
    }

    pub fn stage(&self) -> (r: Stage)
        ensures
            r == self.stage_spec(),
    {
        match self {
            ErrorKind::SourceTooLarge | ErrorKind::UnexpectedChar => Stage::Lexer,
            ErrorKind::Expected { .. }
            | ErrorKind::ExpectedCommaOrSemi { .. }
            | ErrorKind::ExpectedSemiOrEnd { .. }
            | ErrorKind::ExpectedCondOp { .. }
            | ErrorKind::ExpectedFactor { .. }
            | ErrorKind::ExpectedIdent { .. }
            | ErrorKind::UnexpectedEof
            | ErrorKind::BadNumber => Stage::Parser,
            ErrorKind::Unresolved
            | ErrorKind::ExpectedProcFoundConst
            | ErrorKind::ExpectedProcFoundVar
            | ErrorKind::ExpectedVarFoundConst
            | ErrorKind::ExpectedVarFoundProc
            | ErrorKind::ProcInExpr
            | ErrorKind::ErrorNode
            | ErrorKind::TooDeep
            | ErrorKind::TooManyVars
            | ErrorKind::CodeTooLarge => Stage::Compiler,
            ErrorKind::DivisionByZero
            | ErrorKind::StackOverflow
            | ErrorKind::StackUnderflow
            | ErrorKind::InvalidJump
            | ErrorKind::InvalidFrame
            | ErrorKind::StepLimit => Stage::Runtime,
        }
    }

    /// What the message says before it names the subject.
    pub open spec fn text(self) -> Seq<char> {
        match self {
            ErrorKind::SourceTooLarge => "source text too large"@,
            ErrorKind::UnexpectedChar => "unexpected character: "@,
            ErrorKind::Expected { want, found } => want.name_spec() + " expected; found "@
                + found.name_spec(),
            ErrorKind::ExpectedCommaOrSemi { found } => "expected comma or semicolon; found "@
                + found.name_spec(),
            ErrorKind::ExpectedSemiOrEnd { found } => "expected semicolon or 'end'; found "@
                + found.name_spec(),
            ErrorKind::ExpectedCondOp { found } => "expected conditional operator; found "@
                + found.name_spec(),
            ErrorKind::ExpectedFactor { found } =>
                "expected identifier, number or parentheses; found "@ + found.name_spec(),
            ErrorKind::ExpectedIdent { found } => "identifier expected; found: "@
                + found.name_spec(),
            ErrorKind::UnexpectedEof => "unexpected end-of-file"@,
            ErrorKind::BadNumber => "failed to parse number literal: "@,
            ErrorKind::Unresolved => "unresolved identifier: "@,
            ErrorKind::ExpectedProcFoundConst => "expected procedure; found constant: "@,
            ErrorKind::ExpectedProcFoundVar => "expected procedure; found variable: "@,
            ErrorKind::ExpectedVarFoundConst => "expected variable; found constant: "@,
            ErrorKind::ExpectedVarFoundProc => "expected variable; found procedure: "@,
            ErrorKind::ProcInExpr => "procedure call not allowed in expression: "@,
            ErrorKind::ErrorNode => "abstract-syntax-tree contains an error node"@,
            ErrorKind::TooDeep => "procedures are nested too deep"@,
            ErrorKind::TooManyVars => "too many variables in one block"@,
            ErrorKind::CodeTooLarge => "program does not fit into the code space"@,
            ErrorKind::DivisionByZero => "division by zero"@,
            ErrorKind::StackOverflow => "stack overflow"@,
            ErrorKind::StackUnderflow => "stack underflow"@,
            ErrorKind::InvalidJump => "jump to invalid code"@,
            ErrorKind::InvalidFrame => "undefined entry on the frame chain"@,
            ErrorKind::StepLimit => "step limit reached"@,
        }
    }

    /// What the message says before it names the subject.
    pub fn describe(&self) -> (r: String)
        ensures
            r@ == self.text(),
    {
        match self {
            ErrorKind::SourceTooLarge => String::from_str("source text too large"),
            ErrorKind::UnexpectedChar => String::from_str("unexpected character: "),
            ErrorKind::Expected { want, found } => {
                let mut s = String::from_str(want.name());
                s.append(" expected; found ");
                s.append(found.name());
                s
            },
            ErrorKind::ExpectedCommaOrSemi { found } => {
                let mut s = String::from_str("expected comma or semicolon; found ");
                s.append(found.name());
                s
            },
            ErrorKind::ExpectedSemiOrEnd { found } => {
                let mut s = String::from_str("expected semicolon or 'end'; found ");
                s.append(found.name());
                s
            },
            ErrorKind::ExpectedCondOp { found } => {
                let mut s = String::from_str("expected conditional operator; found ");
                s.append(found.name());
                s
            },
            ErrorKind::ExpectedFactor { found } => {
                let mut s = String::from_str(
                    "expected identifier, number or parentheses; found ",
                );
                s.append(found.name());
                s
            },
            ErrorKind::ExpectedIdent { found } => {
                let mut s = String::from_str("identifier expected; found: ");
                s.append(found.name());
                s
            },
            ErrorKind::UnexpectedEof => String::from_str("unexpected end-of-file"),
            ErrorKind::BadNumber => String::from_str("failed to parse number literal: "),
            ErrorKind::Unresolved => String::from_str("unresolved identifier: "),
            ErrorKind::ExpectedProcFoundConst => String::from_str(
                "expected procedure; found constant: ",
            ),
            ErrorKind::ExpectedProcFoundVar => String::from_str(
                "expected procedure; found variable: ",
            ),
            ErrorKind::ExpectedVarFoundConst => String::from_str(
                "expected variable; found constant: ",
            ),
            ErrorKind::ExpectedVarFoundProc => String::from_str(
                "expected variable; found procedure: ",
            ),
            ErrorKind::ProcInExpr => String::from_str(
                "procedure call not allowed in expression: ",
            ),
            ErrorKind::ErrorNode => String::from_str(
                "abstract-syntax-tree contains an error node",
            ),
            ErrorKind::TooDeep => String::from_str("procedures are nested too deep"),
            ErrorKind::TooManyVars => String::from_str("too many variables in one block"),
            ErrorKind::CodeTooLarge => String::from_str(
                "program does not fit into the code space",
            ),
            ErrorKind::DivisionByZero => String::from_str("division by zero"),
            ErrorKind::StackOverflow => String::from_str("stack overflow"),
            ErrorKind::StackUnderflow => String::from_str("stack underflow"),
            ErrorKind::InvalidJump => String::from_str("jump to invalid code"),
            ErrorKind::InvalidFrame => String::from_str("undefined entry on the frame chain"),
            ErrorKind::StepLimit => String::from_str("step limit reached"),
        }
    }
}

impl Clone for GuestLoc {
    fn clone(&self) -> (r: Self)
        ensures
            r.span == self.span,
            r.file@ == self.file@,
    {
        GuestLoc { span: self.span, file: self.file.clone() }
    }
}

impl Clone for Error {
    fn clone(&self) -> (r: Self)
        ensures
            r.same(self),
    {
        Error {
            kind: self.kind,
            subject: self.subject.clone(),
            guest_loc: match &self.guest_loc {
                Some(loc) => Some(loc.clone()),
                None => None,
            },
            note: match &self.note {
                Some(note) => Some(note.clone()),
                None => None,
            },
        }
    }
}

impl Error {
    /// Whether the two errors say the same of the same place.
    pub open spec fn same(&self, other: &Error) -> bool {
        &&& self.kind == other.kind
        &&& self.subject@ == other.subject@
        &&& match (self.guest_loc, other.guest_loc) {
            (Some(a), Some(b)) => a.span == b.span && a.file@ == b.file@,
            (None, None) => true,
            _ => false,
        }
        &&& match (self.note, other.note) {
            (Some(a), Some(b)) => a@ == b@,
            (None, None) => true,
            _ => false,
        }
    }

    /// Whether this is the error of `kind` about `subject`, with no location and no note.
    pub open spec fn is(&self, kind: ErrorKind, subject: Seq<char>) -> bool {
        &&& self.kind == kind
        &&& self.subject@ == subject
        &&& self.guest_loc is None
        &&& self.note is None
    }

    /// Whether this is the error of `kind` about `subject`, found at `span` of `file`.
    pub open spec fn is_at(
        &self,
        kind: ErrorKind,
        subject: Seq<char>,
        span: (u32, u32),
        file: Seq<char>,
    ) -> bool {
        &&& self.kind == kind
        &&& self.subject@ == subject
        &&& self.guest_loc matches Some(loc) && loc.span == span && loc.file@ == file
        &&& self.note is None
    }

    /// An error without a subject.
    pub fn new(kind: ErrorKind) -> (r: Self)
        ensures
            r.is(kind, Seq::empty()),
    {
        Error { kind, subject: String::new(), guest_loc: None, note: None }
    }

    /// An error about the name or text `subject`.
    pub fn about(kind: ErrorKind, subject: &str) -> (r: Self)
        ensures
            r.is(kind, subject@),
    {
        Error { kind, subject: String::from_str(subject), guest_loc: None, note: None }
    }

    /// An error about the text `subject`, found at `span` of `file`.
    pub fn located(kind: ErrorKind, subject: &str, span: (u32, u32), file: &str) -> (r: Self)
        ensures
            r.is_at(kind, subject@, span, file@),
    {
        Error {
            kind,
            subject: String::from_str(subject),
            guest_loc: Some(GuestLoc { span, file: String::from_str(file) }),
            note: None,
        }
    }

    pub fn kind(&self) -> (r: ErrorKind)
        ensures
            r == self.kind,
    {
        self.kind
    }

    pub fn stage(&self) -> (r: Stage)
        ensures
            r == self.kind.stage_spec(),
    {
        self.kind.stage()
    }

    /// Where in the source text the error was found: `(byte_offset, size)`.
    pub fn span(&self) -> (r: Option<(u32, u32)>)
        ensures
            r == match self.guest_loc {
                Some(loc) => Some(loc.span),
                None => None,
            },
    {
        match &self.guest_loc {
            Some(loc) => Some(loc.span),
            None => None,
        }
    }

    pub open spec fn message_spec(&self) -> Seq<char> {
        self.kind.text() + self.subject@
    }

    /// The human-readable message.
    pub fn message(&self) -> (r: String)
        ensures
            r@ == self.message_spec(),
    {
        let mut s = self.kind.describe();
        s.append(self.subject.as_str());
        s
    }

    pub open spec fn to_string_spec(&self) -> Seq<char> {
        self.kind.stage_spec().name_spec() + " error: "@ + self.message_spec()
    }

    /// The stage and the message, on one line.
    pub fn to_string(&self) -> (r: String)
        ensures
            r@ == self.to_string_spec(),
    {
        let mut s = String::from_str(self.kind.stage().name());
        s.append(" error: ");
        let message = self.message();
        s.append(message.as_str());
        s
    }

    pub fn pretty<'a, 'b>(&'a self, text: &'b str) -> (r: ErrorPretty<'a, 'b>)
        ensures
            r.err == self,
            r.text == text,
    {
        ErrorPretty { err: self, text }
    }
}

impl<T> ResultExt for Result<T> {
    open spec fn noted(self, note: Seq<char>, r: Self) -> bool {
        match (self, r) {
            (Ok(a), Ok(b)) => a == b,
            (Err(a), Err(b)) => {
                &&& b.kind == a.kind
                &&& b.subject == a.subject
                &&& b.guest_loc == a.guest_loc
                &&& b.note matches Some(n) && n@ == note
            },
            _ => false,
        }
    }

    fn with_note(self, note: &str) -> (r: Self) {
        match self {
            Ok(v) => Ok(v),
            Err(e) => Err(
                Error {
                    kind: e.kind,
                    subject: e.subject,
                    guest_loc: e.guest_loc,
                    note: Some(String::from_str(note)),
                },
            ),
        }
    }
}

/// The decimal digit `d`, as text.
pub open spec fn digit_text(d: int) -> Seq<char> {
    if d == 0 {
        "0"@
    } else if d == 1 {
        "1"@
    } else if d == 2 {
        "2"@
    } else if d == 3 {
        "3"@
    } else if d == 4 {
        "4"@
    } else if d == 5 {
        "5"@
    } else if d == 6 {
        "6"@
    } else if d == 7 {
        "7"@
    } else if d == 8 {
        "8"@
    } else {
        "9"@
    }
}

/// The number `n`, written in decimal digits.
pub open spec fn decimal_text(n: nat) -> Seq<char>
    decreases n,
{
    if n < 10 {
        digit_text(n as int)
    } else {
        decimal_text(n / 10) + digit_text((n % 10) as int)
    }
}

fn digit_str(d: u32) -> (r: &'static str)
    requires
        d < 10,
    ensures
        r@ == digit_text(d as int),
{
    if d == 0 {
        "0"
    } else if d == 1 {
        "1"
    } else if d == 2 {
        "2"
    } else if d == 3 {
        "3"
    } else if d == 4 {
        "4"
    } else if d == 5 {
        "5"
    } else if d == 6 {
        "6"
    } else if d == 7 {
        "7"
    } else if d == 8 {
        "8"
    } else {
        "9"
    }
}

/// The number `n`, written in decimal digits.
pub fn decimal_string(n: u32) -> (r: String)
    ensures
        r@ == decimal_text(n as nat),
    decreases n,
{
    if n < 10 {
        String::from_str(digit_str(n))
    } else {
        let mut s = decimal_string(n / 10);
        s.append(digit_str(n % 10));
        s
    }
}

impl<'a, 'b> ErrorPretty<'a, 'b> {
    /// The line that tells where the error was found, and under it the
    /// text at which it was found, if the span lies in the text.
    pub open spec fn location_spec(&self) -> Seq<char> {
        match self.err.guest_loc {
            Some(loc) => " --> "@ + loc.file@ + ":"@ + decimal_text(loc.span.0 as nat) + "\n"@ + (
            if covers(self.text@, loc.span) {
                "  | "@ + covered(self.text@, loc.span) + "\n"@
            } else {
                Seq::empty()
            }),
            None => Seq::empty(),
        }
    }

    pub open spec fn note_spec(&self) -> Seq<char> {
        match self.err.note {
            Some(note) => "note: "@ + note@ + "\n"@,
            None => Seq::empty(),
        }
    }

    /// The report: the stage and the message, then the location, then the note.
    pub open spec fn to_string_spec(&self) -> Seq<char> {
        self.err.to_string_spec() + "\n"@ + self.location_spec() + self.note_spec()
    }

    /// The report of the error, for a reader of the source text.
    pub fn to_string(&self) -> (r: String)
        ensures
            r@ == self.to_string_spec(),
    {
        // Error Message
        let mut s = self.err.to_string();
        s.append("\n");
        let ghost head = s@;
        // Text Fragment
        match &self.err.guest_loc {
            Some(loc) => {
                s.append(" --> ");
                s.append(loc.file.as_str());
                s.append(":");
                let offset = decimal_string(loc.span.0);
                s.append(offset.as_str());
                s.append("\n");
                match excerpt(self.text, loc.span) {
                    Some(part) => {
                        s.append("  | ");
                        s.append(part);
                        s.append("\n");
                    },
                    None => {},
                }
            },
            None => {},
        }
        assert(s@ =~= head + self.location_spec());
        // Notes (Optional)
        match &self.err.note {
            Some(note) => {
                s.append("note: ");
                s.append(note.as_str());
                s.append("\n");
            },
            None => {},
        }
        assert(s@ =~= head + self.location_spec() + self.note_spec());
        s
    }
}

} // verus!
