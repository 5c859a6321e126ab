use pl0::ast::{BinOp, Cond, CondOp, Expr, Program, Stmt, UnOp};
use pl0::errors::{ErrorKind, Result, Stage};
use pl0::lexer::Lexer;
use pl0::parser::Parser;
use pl0::tokens::{Keyword, TokenKind};

fn parse_program(text: &str) -> Result<Program> {
    let lex = Lexer::new(text, "<test>");
    let mut parser = Parser::new(lex);
    parser.parse_program()
}

/// The expression of the program `begin write <expr> end.`
fn parse_expr(expr: &str) -> Expr {
    let text = format!("begin write {expr} end.");
    let program = parse_program(&text).expect("parsing failed");
    match program.block.stmt {
        Stmt::SubBlock(mut sub) => match sub.stmts.remove(0) {
            Stmt::Write(write) => write.expr,
            _ => panic!("statement isn't writeln"),
        },
        _ => panic!("statement isn't sub-block"),
    }
}

/// The expression, with every operation in parentheses.
fn show(expr: &Expr) -> String {
    match expr {
        Expr::Num(n) => format!("{n}"),
        Expr::Name(ident) => ident.name.clone(),
        Expr::Unary(un) => match un.op {
            UnOp::Pos => format!("(+{})", show(&un.expr)),
            UnOp::Neg => format!("(-{})", show(&un.expr)),
        },
        Expr::Binary(bin) => {
            let op = match bin.op {
                BinOp::Add => "+",
                BinOp::Sub => "-",
                BinOp::Mul => "*",
                BinOp::Div => "/",
            };
            format!("({}{}{})", show(&bin.lhs), op, show(&bin.rhs))
        }
        Expr::Invalid() => format!("<invalid>"),
    }
}

#[test]
fn parser_tests_test_basic_program() {
    const SOURCE: &str = "begin write 42 end.";

    let program = parse_program(SOURCE).expect("parsing failed");
    println!("{program:#?}");

    let stmt = &program.block.stmt;
    let sub_block = stmt.as_sub_block().expect("statement isn't sub-block");
    let writeln = sub_block.stmts[0].as_writeln().expect("statement isn't writeln");
    assert_eq!(writeln.expr.as_num(), Some(42));
}

#[test]
fn test_semicolon_statements() {
    const SOURCE: &str = "begin
    write 1;
    write 2;
    write 3
end.";

    let program = parse_program(SOURCE).expect("parsing failed");
    println!("{program:#?}");

    let stmts = program.block.stmt.as_sub_block().unwrap().stmts.as_slice();
    assert_eq!(stmts[0].as_writeln().unwrap().expr.as_num(), Some(1));
    assert_eq!(stmts[1].as_writeln().unwrap().expr.as_num(), Some(2));
    assert_eq!(stmts[2].as_writeln().unwrap().expr.as_num(), Some(3));
}

#[test]
fn test_const() {
    const SOURCE: &str = "const foobar = 42;
begin
    write 1
end.";

    let program = parse_program(SOURCE).expect("parsing failed");
    println!("{program:#?}");

    let consts = program.block.consts.as_slice();
    assert_eq!(consts[0].ident.name, "foobar");
    assert_eq!(consts[0].value, 42);

    let stmts = program.block.stmt.as_sub_block().unwrap().stmts.as_slice();
    assert_eq!(stmts[0].as_writeln().unwrap().expr.as_num(), Some(1));
}

#[test]
fn test_var() {
    const SOURCE: &str = "var foobar;
begin
    write 1
end.";

    let program = parse_program(SOURCE).expect("parsing failed");
    println!("{program:#?}");

    let vars = program.block.vars.as_slice();
    assert_eq!(vars[0].ident.name, "foobar");

    let stmts = program.block.stmt.as_sub_block().unwrap().stmts.as_slice();
    assert_eq!(stmts[0].as_writeln().unwrap().expr.as_num(), Some(1));
}

#[test]
fn test_accessors_refuse_other_variants() {
    let program = parse_program("begin x := 1 end.").expect("parsing failed");
    let stmt = &program.block.stmt;
    assert!(stmt.as_writeln().is_none());
    let sub_block = stmt.as_sub_block().unwrap();
    assert!(sub_block.stmts[0].as_sub_block().is_none());
    assert!(sub_block.stmts[0].as_writeln().is_none());
    assert_eq!(parse_expr("x").as_num(), None);
}

#[test]
fn test_precedence_and_associativity() {
    assert_eq!(show(&parse_expr("1+2*3")), "(1+(2*3))");
    assert_eq!(show(&parse_expr("(1+2)*3")), "((1+2)*3)");
    assert_eq!(show(&parse_expr("1-2-3")), "((1-2)-3)");
    assert_eq!(show(&parse_expr("8/4/2")), "((8/4)/2)");
    assert_eq!(show(&parse_expr("8/4*2")), "((8/4)*2)");
    assert_eq!(show(&parse_expr("a*b+c*d")), "((a*b)+(c*d))");
}

#[test]
fn test_sign_belongs_to_first_term() {
    assert_eq!(show(&parse_expr("-a+b")), "((-a)+b)");
    assert_eq!(show(&parse_expr("+a*b-c")), "((+(a*b))-c)");
    assert_eq!(show(&parse_expr("-(1+2)")), "(-(1+2))");
}

#[test]
fn test_multiple_declarations() {
    let program = parse_program(
        "const a = 1, b = 22; var x, y, z; procedure p; var q; begin q := a end; procedure r; ; begin call p end.",
    )
    .expect("parsing failed");
    let block = &program.block;
    assert_eq!(block.consts.len(), 2);
    assert_eq!(block.consts[1].ident.name, "b");
    assert_eq!(block.consts[1].value, 22);
    assert_eq!(block.vars.len(), 3);
    assert_eq!(block.vars[2].ident.name, "z");
    assert_eq!(block.procs.len(), 2);
    assert_eq!(block.procs[0].name.name, "p");
    assert_eq!(block.procs[0].body.vars[0].ident.name, "q");
    assert_eq!(block.procs[1].name.name, "r");
    // The body of `r` is the empty statement.
    assert_eq!(block.procs[1].body.stmt.as_sub_block().unwrap().stmts.len(), 0);
}

#[test]
fn test_statement_kinds() {
    let program = parse_program(
        "begin x := 1; call p; read x; ? x; write x; ! x; if odd x then x := 2; while x # 3 do x := x + 1 end.",
    )
    .expect("parsing failed");
    let stmts = &program.block.stmt.as_sub_block().unwrap().stmts;
    assert_eq!(stmts.len(), 8);
    assert!(matches!(&stmts[0], Stmt::Assign(a) if a.lhs.name == "x"));
    assert!(matches!(&stmts[1], Stmt::Call(c) if c.name.name == "p"));
    assert!(matches!(&stmts[2], Stmt::Read(r) if r.name.name == "x"));
    assert!(matches!(&stmts[3], Stmt::Read(r) if r.name.name == "x"));
    assert!(matches!(&stmts[4], Stmt::Write(_)));
    assert!(matches!(&stmts[5], Stmt::Write(_)));
    assert!(matches!(&stmts[6], Stmt::If(i) if matches!(i.head, Cond::Odd(_))));
    assert!(
        matches!(&stmts[7], Stmt::While(w) if matches!(&w.head, Cond::Bin(b) if matches!(b.op, CondOp::NotEq)))
    );
}

#[test]
fn test_condition_operators() {
    let ops = [
        ("=", CondOp::Eq),
        ("#", CondOp::NotEq),
        ("<", CondOp::Less),
        ("<=", CondOp::LessEq),
        (">", CondOp::Great),
        (">=", CondOp::GreatEq),
    ];
    for (text, op) in ops {
        let source = format!("if 1 {text} 2 then write 1.");
        let program = parse_program(&source).expect("parsing failed");
        match &program.block.stmt {
            Stmt::If(stmt) => match &stmt.head {
                Cond::Bin(bin) => assert_eq!(bin.op, op),
                _ => panic!("condition isn't binary"),
            },
            _ => panic!("statement isn't if"),
        }
    }
}

#[test]
fn test_empty_statement() {
    let program = parse_program(".").expect("parsing failed");
    assert_eq!(program.block.stmt.as_sub_block().unwrap().stmts.len(), 0);

    let program = parse_program("begin write 1; end.").expect("parsing failed");
    let stmts = &program.block.stmt.as_sub_block().unwrap().stmts;
    assert_eq!(stmts.len(), 2);
    assert_eq!(stmts[1].as_sub_block().unwrap().stmts.len(), 0);
}

fn parse_error(text: &str) -> pl0::Error {
    match parse_program(text) {
        Ok(_) => panic!("unexpected success"),
        Err(err) => err,
    }
}

#[test]
fn test_missing_period() {
    let err = parse_error("begin write 1 end");
    assert_eq!(
        err.kind(),
        ErrorKind::Expected { want: TokenKind::Dot, found: TokenKind::Eof }
    );
    assert_eq!(err.stage(), Stage::Parser);
    assert_eq!(err.span(), Some((17, 0)));
    assert_eq!(err.message(), "period expected; found end-of-file");
}

#[test]
fn test_missing_separator() {
    let err = parse_error("begin write 1 write 2 end.");
    assert_eq!(
        err.kind(),
        ErrorKind::ExpectedSemiOrEnd { found: TokenKind::Keyword(Keyword::Write) }
    );
    assert_eq!(err.span(), Some((14, 5)));
    assert_eq!(err.message(), "expected semicolon or 'end'; found 'write'");
}

#[test]
fn test_unfinished_block() {
    let err = parse_error("begin write 1 ");
    assert_eq!(err.kind(), ErrorKind::UnexpectedEof);
    let err = parse_error("const a = 1 ");
    assert_eq!(err.kind(), ErrorKind::UnexpectedEof);
    let err = parse_error("var a ");
    assert_eq!(err.kind(), ErrorKind::UnexpectedEof);
}

#[test]
fn test_declaration_errors() {
    let err = parse_error("const a = 1 b = 2; .");
    assert_eq!(err.kind(), ErrorKind::ExpectedCommaOrSemi { found: TokenKind::Ident });
    let err = parse_error("var a b; .");
    assert_eq!(err.kind(), ErrorKind::ExpectedCommaOrSemi { found: TokenKind::Ident });
    let err = parse_error("var 1; .");
    assert_eq!(err.kind(), ErrorKind::ExpectedIdent { found: TokenKind::Num });
    assert_eq!(err.message(), "identifier expected; found: number");
    let err = parse_error("const a := 1; .");
    assert_eq!(
        err.kind(),
        ErrorKind::Expected { want: TokenKind::Eq, found: TokenKind::Assign }
    );
    let err = parse_error("procedure p begin end; .");
    assert_eq!(
        err.kind(),
        ErrorKind::Expected { want: TokenKind::Semi, found: TokenKind::Keyword(Keyword::Begin) }
    );
}

#[test]
fn test_expression_errors() {
    let err = parse_error("begin x := ; end.");
    assert_eq!(err.kind(), ErrorKind::ExpectedFactor { found: TokenKind::Semi });
    assert_eq!(err.span(), Some((11, 1)));
    let err = parse_error("begin x := (1 + 2 end.");
    assert_eq!(
        err.kind(),
        ErrorKind::Expected { want: TokenKind::ParenRight, found: TokenKind::Keyword(Keyword::End) }
    );
    let err = parse_error("if x then write 1.");
    assert_eq!(err.kind(), ErrorKind::ExpectedCondOp { found: TokenKind::Keyword(Keyword::Then) });
    let err = parse_error("while x < 1 write 1.");
    assert_eq!(
        err.kind(),
        ErrorKind::Expected {
            want: TokenKind::Keyword(Keyword::Do),
            found: TokenKind::Keyword(Keyword::Write)
        }
    );
}

#[test]
fn test_number_literals_are_signed_32_bit() {
    assert_eq!(parse_expr("2147483647").as_num(), Some(2147483647));
    assert_eq!(parse_expr("0000000000000000007").as_num(), Some(7));
    let err = parse_error("begin write 2147483648 end.");
    assert_eq!(err.kind(), ErrorKind::BadNumber);
    assert_eq!(err.span(), Some((12, 10)));
    assert_eq!(err.message(), "failed to parse number literal: 2147483648");
    let err = parse_error("begin write 99999999999999999999999999 end.");
    assert_eq!(err.kind(), ErrorKind::BadNumber);
}

#[test]
fn test_lexer_error_stops_the_parser() {
    let err = parse_error("begin write 1 @ 2 end.");
    assert_eq!(err.kind(), ErrorKind::UnexpectedChar);
    assert_eq!(err.stage(), Stage::Lexer);
    assert_eq!(err.span(), Some((14, 1)));
}
