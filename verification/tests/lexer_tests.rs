use pl0::errors::ErrorKind;
use pl0::lexer::{classify, CharClass, Lexer};
use pl0::text::{char_width, chars_of, slice_is, str_eq, string_of};
use pl0::tokens::{excerpt, Keyword as KW, Token, TokenKind as TK};

fn tok(index: u32, size: u32, kind: TK) -> Token {
    Token::new(kind, (index, size))
}

fn kw(index: u32, size: u32, kind: KW) -> Token {
    Token::new(TK::Keyword(kind), (index, size))
}

#[test]
fn lexer_tests_test_basic_program() {
    const SOURCE: &str = r"var i, s;
begin
  i := 0; s := 0;
  while i < 5 do
  begin
    i := i + 1;
    s := s + i * i
  end
end.";
    let mut lex = Lexer::new(SOURCE, "<test>");

    assert_eq!(lex.next_token().unwrap(), kw(0, 3, KW::Var)); // var
    assert_eq!(lex.next_token().unwrap(), tok(4, 1, TK::Ident)); // i
    assert_eq!(lex.next_token().unwrap(), tok(5, 1, TK::Comma)); // ,
    assert_eq!(lex.next_token().unwrap(), tok(7, 1, TK::Ident)); // s
    assert_eq!(lex.next_token().unwrap(), tok(8, 1, TK::Semi)); // ;
    assert_eq!(lex.next_token().unwrap(), kw(10, 5, KW::Begin)); // begin
    assert_eq!(lex.next_token().unwrap(), tok(18, 1, TK::Ident)); // i
    assert_eq!(lex.next_token().unwrap(), tok(20, 2, TK::Assign)); // :=
    assert_eq!(lex.next_token().unwrap(), tok(23, 1, TK::Num)); // 0
    assert_eq!(lex.next_token().unwrap(), tok(24, 1, TK::Semi)); // ;
    assert_eq!(lex.next_token().unwrap(), tok(26, 1, TK::Ident)); // s
    assert_eq!(lex.next_token().unwrap(), tok(28, 2, TK::Assign)); // :=
    assert_eq!(lex.next_token().unwrap(), tok(31, 1, TK::Num)); // 0
    assert_eq!(lex.next_token().unwrap(), tok(32, 1, TK::Semi)); // ;
    assert_eq!(lex.next_token().unwrap(), kw(36, 5, KW::While)); // while
    assert_eq!(lex.next_token().unwrap(), tok(42, 1, TK::Ident)); // i
    assert_eq!(lex.next_token().unwrap(), tok(44, 1, TK::Less)); // <
    assert_eq!(lex.next_token().unwrap(), tok(46, 1, TK::Num)); // 5
    assert_eq!(lex.next_token().unwrap(), kw(48, 2, KW::Do)); // do
    assert_eq!(lex.next_token().unwrap(), kw(53, 5, KW::Begin)); // begin
    assert_eq!(lex.next_token().unwrap(), tok(63, 1, TK::Ident)); // i
    assert_eq!(lex.next_token().unwrap(), tok(65, 2, TK::Assign)); // :=
    assert_eq!(lex.next_token().unwrap(), tok(68, 1, TK::Ident)); // i
    assert_eq!(lex.next_token().unwrap(), tok(70, 1, TK::Plus)); // +
    assert_eq!(lex.next_token().unwrap(), tok(72, 1, TK::Num)); // 1
    assert_eq!(lex.next_token().unwrap(), tok(73, 1, TK::Semi)); // ;
    assert_eq!(lex.next_token().unwrap(), tok(79, 1, TK::Ident)); // s
    assert_eq!(lex.next_token().unwrap(), tok(81, 2, TK::Assign)); // :=
    assert_eq!(lex.next_token().unwrap(), tok(84, 1, TK::Ident)); // s
    assert_eq!(lex.next_token().unwrap(), tok(86, 1, TK::Plus)); // +
    assert_eq!(lex.next_token().unwrap(), tok(88, 1, TK::Ident)); // i
    assert_eq!(lex.next_token().unwrap(), tok(90, 1, TK::Star)); // *
    assert_eq!(lex.next_token().unwrap(), tok(92, 1, TK::Ident)); // i
    assert_eq!(lex.next_token().unwrap(), kw(96, 3, KW::End)); // end
    assert_eq!(lex.next_token().unwrap(), kw(100, 3, KW::End)); // end
    assert_eq!(lex.next_token().unwrap(), tok(103, 1, TK::Dot)); // .
}

#[test]
fn test_end_of_file_repeats() {
    let mut lex = Lexer::new("x  ", "<test>");
    assert_eq!(lex.next_token().unwrap(), tok(0, 1, TK::Ident));
    assert_eq!(lex.next_token().unwrap(), tok(3, 0, TK::Eof));
    assert_eq!(lex.next_token().unwrap(), tok(3, 0, TK::Eof));
}

#[test]
fn test_punctuation_tokens() {
    let mut lex = Lexer::new(", . = # ; + - * / ( ) < <= > >= := ! ?", "<test>");
    let kinds = [
        TK::Comma,
        TK::Dot,
        TK::Eq,
        TK::Hash,
        TK::Semi,
        TK::Plus,
        TK::Minus,
        TK::Star,
        TK::Slash,
        TK::ParenLeft,
        TK::ParenRight,
        TK::Less,
        TK::LessEq,
        TK::Great,
        TK::GreatEq,
        TK::Assign,
        TK::Keyword(KW::Write),
        TK::Keyword(KW::Read),
        TK::Eof,
    ];
    for kind in kinds {
        assert_eq!(lex.next_token().unwrap().kind, kind);
    }
}

#[test]
fn test_keywords_are_reserved() {
    let words = [
        ("begin", KW::Begin),
        ("call", KW::Call),
        ("const", KW::Const),
        ("do", KW::Do),
        ("end", KW::End),
        ("if", KW::If),
        ("odd", KW::Odd),
        ("procedure", KW::Procedure),
        ("read", KW::Read),
        ("then", KW::Then),
        ("var", KW::Var),
        ("while", KW::While),
        ("write", KW::Write),
    ];
    for (word, keyword) in words {
        let mut lex = Lexer::new(word, "<test>");
        assert_eq!(lex.next_token().unwrap(), kw(0, word.len() as u32, keyword));
    }
    let mut lex = Lexer::new("begins Begin end_ odd1", "<test>");
    assert_eq!(lex.next_token().unwrap(), tok(0, 6, TK::Ident));
    assert_eq!(lex.next_token().unwrap(), tok(7, 5, TK::Ident));
    assert_eq!(lex.next_token().unwrap(), tok(13, 4, TK::Ident));
    assert_eq!(lex.next_token().unwrap(), tok(18, 4, TK::Ident));
}

#[test]
fn test_identifier_with_digits_and_underscores() {
    let mut lex = Lexer::new("a1_b2 9z", "<test>");
    assert_eq!(lex.next_token().unwrap(), tok(0, 5, TK::Ident));
    assert_eq!(lex.next_token().unwrap(), tok(6, 1, TK::Num));
    assert_eq!(lex.next_token().unwrap(), tok(7, 1, TK::Ident));
}

#[test]
fn test_spans_count_bytes() {
    // A no-break space is white space of two bytes, and "é" is a letter of two bytes.
    let source = "x\u{a0}caf\u{e9} y";
    let mut lex = Lexer::new(source, "<test>");
    assert_eq!(lex.next_token().unwrap(), tok(0, 1, TK::Ident));
    let word = lex.next_token().unwrap();
    assert_eq!(word, tok(3, 5, TK::Ident));
    assert_eq!(word.fragment(source), "caf\u{e9}");
    assert_eq!(lex.next_token().unwrap(), tok(9, 1, TK::Ident));
}

#[test]
fn test_unexpected_character() {
    let mut lex = Lexer::new("x $ y", "prog.pl0");
    assert_eq!(lex.next_token().unwrap(), tok(0, 1, TK::Ident));
    let err = lex.next_token().unwrap_err();
    assert_eq!(err.kind(), ErrorKind::UnexpectedChar);
    assert_eq!(err.span(), Some((2, 1)));
    assert_eq!(err.message(), "unexpected character: $");
    assert_eq!(err.to_string(), "lexer error: unexpected character: $");
    // The character was consumed.
    assert_eq!(lex.next_token().unwrap(), tok(4, 1, TK::Ident));
}

#[test]
fn test_colon_needs_equal_sign() {
    let mut lex = Lexer::new("x : y", "<test>");
    assert_eq!(lex.next_token().unwrap(), tok(0, 1, TK::Ident));
    let err = lex.next_token().unwrap_err();
    assert_eq!(err.kind(), ErrorKind::UnexpectedChar);
    assert_eq!(err.span(), Some((2, 1)));
    assert_eq!(err.message(), "unexpected character: :");
}

#[test]
fn test_token_fragment() {
    let source = "var total;";
    let token = Token::new(TK::Ident, (4, 5));
    assert_eq!(token.fragment(source), "total");
    assert_eq!(Token::new(TK::Eof, (10, 0)).fragment(source), "");
}

#[test]
fn test_token_names() {
    assert_eq!(TK::Assign.name(), "assignment");
    assert_eq!(TK::Dot.name(), "period");
    assert_eq!(TK::Num.name(), "number");
    assert_eq!(TK::Eof.name(), "end-of-file");
    assert_eq!(TK::Keyword(KW::Begin).name(), "'begin'");
    assert_eq!(KW::While.name(), "'while'");
}

#[test]
fn test_lexer_fragment() {
    let mut lex = Lexer::new("  total := 12345", "<test>");
    assert_eq!(lex.text(), "  total := 12345");
    assert_eq!(lex.file(), "<test>");
    assert_eq!(lex.fragment(), "");
    lex.next_token().unwrap();
    assert_eq!(lex.fragment(), "total");
    lex.next_token().unwrap();
    assert_eq!(lex.fragment(), ":=");
    lex.next_token().unwrap();
    assert_eq!(lex.fragment(), "12345");
    lex.next_token().unwrap();
    assert_eq!(lex.fragment(), "");
}

#[test]
fn test_excerpt() {
    let source = "a \u{e9}\u{20ac}\u{1f600} b";
    assert_eq!(excerpt(source, (0, 1)), Some("a"));
    assert_eq!(excerpt(source, (2, 2)), Some("\u{e9}"));
    assert_eq!(excerpt(source, (4, 3)), Some("\u{20ac}"));
    assert_eq!(excerpt(source, (7, 4)), Some("\u{1f600}"));
    assert_eq!(excerpt(source, (2, 9)), Some("\u{e9}\u{20ac}\u{1f600}"));
    assert_eq!(excerpt(source, (13, 0)), Some(""));
    assert_eq!(excerpt(source, (0, 13)), Some(source));
    // Inside a character, or beyond the text.
    assert_eq!(excerpt(source, (3, 1)), None);
    assert_eq!(excerpt(source, (2, 1)), None);
    assert_eq!(excerpt(source, (8, 3)), None);
    assert_eq!(excerpt(source, (14, 0)), None);
    assert_eq!(excerpt(source, (12, 2)), None);
    assert_eq!(excerpt(source, (u32::MAX, u32::MAX)), None);
}

#[test]
fn test_text_helpers() {
    assert_eq!(char_width('a'), 1);
    assert_eq!(char_width('\u{7f}'), 1);
    assert_eq!(char_width('\u{80}'), 2);
    assert_eq!(char_width('\u{7ff}'), 2);
    assert_eq!(char_width('\u{800}'), 3);
    assert_eq!(char_width('\u{ffff}'), 3);
    assert_eq!(char_width('\u{10000}'), 4);
    for c in ['a', '\u{e9}', '\u{20ac}', '\u{1f600}'] {
        assert_eq!(char_width(c), c.len_utf8());
    }
    let chars = chars_of("h\u{e9}llo");
    assert_eq!(chars, vec!['h', '\u{e9}', 'l', 'l', 'o']);
    assert!(slice_is(&chars, 1, 4, "\u{e9}ll"));
    assert!(!slice_is(&chars, 1, 4, "\u{e9}l"));
    assert!(!slice_is(&chars, 1, 4, "\u{e9}llo"));
    assert!(!slice_is(&chars, 1, 4, "ell"));
    assert!(slice_is(&chars, 2, 2, ""));
    assert_eq!(string_of(&chars, 1, 4), "\u{e9}ll");
    assert_eq!(string_of(&chars, 0, 0), "");
    assert!(str_eq("", ""));
    assert!(str_eq("begin", "begin"));
    assert!(!str_eq("begin", "begins"));
    assert!(!str_eq("begins", "begin"));
    assert!(!str_eq("begin", "begun"));
}

#[test]
fn test_classify() {
    assert_eq!(classify(' '), CharClass { space: true, alnum: false });
    assert_eq!(classify('\n'), CharClass { space: true, alnum: false });
    assert_eq!(classify('\u{a0}'), CharClass { space: true, alnum: false });
    assert_eq!(classify('a'), CharClass { space: false, alnum: true });
    assert_eq!(classify('7'), CharClass { space: false, alnum: true });
    assert_eq!(classify('\u{e9}'), CharClass { space: false, alnum: true });
    assert_eq!(classify('_'), CharClass { space: false, alnum: false });
    assert_eq!(classify('+'), CharClass { space: false, alnum: false });
}

#[test]
fn test_lexer_with_classes() {
    // The classes decide what is white space and what goes on an identifier.
    let plain = CharClass { space: false, alnum: false };
    let space = CharClass { space: true, alnum: false };
    let alnum = CharClass { space: false, alnum: true };
    let mut lex = Lexer::with_classes("ab$c d", "<test>", vec![alnum, alnum, alnum, plain, plain, alnum]);
    assert_eq!(lex.next_token().unwrap(), tok(0, 3, TK::Ident));
    assert_eq!(lex.fragment(), "ab$");
    assert_eq!(lex.next_token().unwrap(), tok(3, 1, TK::Ident));
    assert_eq!(lex.next_token().unwrap_err().kind(), ErrorKind::UnexpectedChar);
    assert_eq!(lex.next_token().unwrap(), tok(5, 1, TK::Ident));

    let mut lex = Lexer::with_classes("a-b", "<test>", vec![alnum, space, alnum]);
    assert_eq!(lex.next_token().unwrap(), tok(0, 1, TK::Ident));
    assert_eq!(lex.next_token().unwrap(), tok(2, 1, TK::Ident));
    assert_eq!(lex.next_token().unwrap(), tok(3, 0, TK::Eof));
}
