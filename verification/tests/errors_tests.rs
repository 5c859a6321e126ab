use pl0::errors::{decimal_string, Error, ErrorKind, ResultExt, Stage};
use pl0::tokens::TokenKind;

#[test]
fn test_stage_names() {
    for stage in [Stage::Lexer, Stage::Parser, Stage::Compiler, Stage::Runtime] {
        assert_eq!(Stage::try_from(stage.name()).unwrap(), stage);
    }
    assert_eq!(Stage::Lexer.name(), "lexer");
    assert_eq!(Stage::Runtime.name(), "runtime");
    let err = Stage::try_from("linker").unwrap_err();
    assert_eq!(err.input, "linker");
    assert_eq!(err.to_string(), "failed to parse error stage: linker");
}

#[test]
fn test_stage_of_kind() {
    assert_eq!(ErrorKind::UnexpectedChar.stage(), Stage::Lexer);
    assert_eq!(ErrorKind::SourceTooLarge.stage(), Stage::Lexer);
    assert_eq!(ErrorKind::UnexpectedEof.stage(), Stage::Parser);
    assert_eq!(ErrorKind::ExpectedIdent { found: TokenKind::Eof }.stage(), Stage::Parser);
    assert_eq!(ErrorKind::Unresolved.stage(), Stage::Compiler);
    assert_eq!(ErrorKind::TooDeep.stage(), Stage::Compiler);
    assert_eq!(ErrorKind::TooManyVars.stage(), Stage::Compiler);
    assert_eq!(ErrorKind::StackUnderflow.stage(), Stage::Runtime);
    assert_eq!(ErrorKind::StepLimit.stage(), Stage::Runtime);
}

#[test]
fn test_messages() {
    let err = Error::about(ErrorKind::Unresolved, "foo");
    assert_eq!(err.message(), "unresolved identifier: foo");
    assert_eq!(err.to_string(), "compiler error: unresolved identifier: foo");
    let err = Error::new(ErrorKind::Expected { want: TokenKind::Semi, found: TokenKind::Comma });
    assert_eq!(err.message(), "semicolon expected; found comma");
    assert_eq!(Error::new(ErrorKind::ErrorNode).message(), "abstract-syntax-tree contains an error node");
    assert_eq!(Error::new(ErrorKind::InvalidJump).message(), "jump to invalid code");
}

#[test]
fn test_pretty() {
    let err = Error::new(ErrorKind::DivisionByZero);
    assert_eq!(err.pretty("").to_string(), "runtime error: division by zero\n");

    let source = "var \u{e9}t\u{e9};\nbegin $ end.";
    let err = Error::located(ErrorKind::UnexpectedChar, "$", (17, 1), "a.pl0");
    assert_eq!(
        err.pretty(source).to_string(),
        "lexer error: unexpected character: $\n --> a.pl0:17\n  | $\n"
    );
    // A span that does not lie in the text leaves the excerpt out.
    assert_eq!(
        err.pretty("short").to_string(),
        "lexer error: unexpected character: $\n --> a.pl0:17\n"
    );
    let err = Error::located(ErrorKind::UnexpectedEof, "", (4294967295, 4294967295), "a.pl0");
    assert_eq!(
        err.pretty(source).to_string(),
        "parser error: unexpected end-of-file\n --> a.pl0:4294967295\n"
    );
    let err = Error::located(ErrorKind::UnexpectedChar, "$", (5, 2), "a.pl0");
    assert_eq!(
        err.pretty(source).to_string(),
        "lexer error: unexpected character: $\n --> a.pl0:5\n"
    );
}

#[test]
fn test_with_note() {
    let r: pl0::Result<i32> = Err(Error::about(ErrorKind::Unresolved, "foo"));
    let err = r.with_note("declare it first").unwrap_err();
    assert_eq!(err.kind(), ErrorKind::Unresolved);
    assert_eq!(
        err.pretty("").to_string(),
        "compiler error: unresolved identifier: foo\nnote: declare it first\n"
    );
    let r: pl0::Result<i32> = Ok(3);
    assert_eq!(r.with_note("nothing").unwrap(), 3);
}

#[test]
fn test_clone() {
    let err = Error::located(ErrorKind::BadNumber, "99999999999", (3, 11), "b.pl0");
    let copy = err.clone();
    assert_eq!(copy.kind(), err.kind());
    assert_eq!(copy.span(), Some((3, 11)));
    assert_eq!(copy.message(), err.message());
    assert_eq!(copy.pretty("").to_string(), err.pretty("").to_string());
}

#[test]
fn test_decimal_string() {
    assert_eq!(decimal_string(0), "0");
    assert_eq!(decimal_string(7), "7");
    assert_eq!(decimal_string(10), "10");
    assert_eq!(decimal_string(1234567890), "1234567890");
    assert_eq!(decimal_string(u32::MAX), "4294967295");
}

#[test]
fn test_every_kind_has_a_message() {
    let found = TokenKind::Eof;
    let kinds = [
        (ErrorKind::SourceTooLarge, "lexer error: source text too large"),
        (ErrorKind::UnexpectedChar, "lexer error: unexpected character: "),
        (
            ErrorKind::Expected { want: TokenKind::Ident, found },
            "parser error: identifier expected; found end-of-file",
        ),
        (
            ErrorKind::ExpectedCommaOrSemi { found },
            "parser error: expected comma or semicolon; found end-of-file",
        ),
        (
            ErrorKind::ExpectedSemiOrEnd { found },
            "parser error: expected semicolon or 'end'; found end-of-file",
        ),
        (
            ErrorKind::ExpectedCondOp { found },
            "parser error: expected conditional operator; found end-of-file",
        ),
        (
            ErrorKind::ExpectedFactor { found },
            "parser error: expected identifier, number or parentheses; found end-of-file",
        ),
        (ErrorKind::ExpectedIdent { found }, "parser error: identifier expected; found: end-of-file"),
        (ErrorKind::UnexpectedEof, "parser error: unexpected end-of-file"),
        (ErrorKind::BadNumber, "parser error: failed to parse number literal: "),
        (ErrorKind::Unresolved, "compiler error: unresolved identifier: "),
        (ErrorKind::ExpectedProcFoundConst, "compiler error: expected procedure; found constant: "),
        (ErrorKind::ExpectedProcFoundVar, "compiler error: expected procedure; found variable: "),
        (ErrorKind::ExpectedVarFoundConst, "compiler error: expected variable; found constant: "),
        (ErrorKind::ExpectedVarFoundProc, "compiler error: expected variable; found procedure: "),
        (ErrorKind::ProcInExpr, "compiler error: procedure call not allowed in expression: "),
        (ErrorKind::ErrorNode, "compiler error: abstract-syntax-tree contains an error node"),
        (ErrorKind::TooDeep, "compiler error: procedures are nested too deep"),
        (ErrorKind::TooManyVars, "compiler error: too many variables in one block"),
        (ErrorKind::CodeTooLarge, "compiler error: program does not fit into the code space"),
        (ErrorKind::DivisionByZero, "runtime error: division by zero"),
        (ErrorKind::StackOverflow, "runtime error: stack overflow"),
        (ErrorKind::StackUnderflow, "runtime error: stack underflow"),
        (ErrorKind::InvalidJump, "runtime error: jump to invalid code"),
        (ErrorKind::InvalidFrame, "runtime error: undefined entry on the frame chain"),
        (ErrorKind::StepLimit, "runtime error: step limit reached"),
    ];
    for (kind, text) in kinds {
        let err = Error::new(kind);
        assert_eq!(err.to_string(), text);
        assert_eq!(format!("{} error: {}", kind.stage().name(), kind.describe()), text);
    }
}
