//! The lexer: cuts the source text into tokens.
use vstd::prelude::*;
use crate::errors::{Error, ErrorKind, Result};
use crate::text::{
    char_width, chars_of, lemma_offset_bound, lemma_offset_monotone, lemma_offset_step, offset_of,
    slice_is, string_of, width,
};
use crate::tokens::{lemma_index_at, Keyword, Token, TokenKind};

verus! {

/// Whether `c` is white space, as `char::is_whitespace` tells it.
pub uninterp spec fn is_whitespace_char(c: char) -> bool;

/// Whether `c` is a letter or a digit, as `char::is_alphanumeric` tells it.
pub uninterp spec fn is_alphanumeric_char(c: char) -> bool;

/// `char::is_whitespace`: whether the character has the Unicode property
/// White_Space. The result is given the name `is_whitespace_char`.
#[verifier::external_body]
fn is_whitespace(c: char) -> (b: bool)
    ensures
        b == is_whitespace_char(c),
{
    c.is_whitespace()
}

/// `char::is_alphanumeric`: whether the character is alphabetic or numeric
/// by its Unicode properties. The result is given the name
/// `is_alphanumeric_char`.
#[verifier::external_body]
fn is_alphanumeric(c: char) -> (b: bool)
    ensures
        b == is_alphanumeric_char(c),
{
    c.is_alphanumeric()
}

/// What the lexer has to know of a character beyond the character itself.
#[derive(Debug, Clone, Copy, PartialEq, Eq)]
pub struct CharClass {
    /// Whether the character is white space.
    pub space: bool,
    /// Whether the character is a letter or a digit.
    pub alnum: bool,
}

/// The class of the character `c`, as the standard library tells it.
pub open spec fn class_of(c: char) -> CharClass {
    CharClass { space: is_whitespace_char(c), alnum: is_alphanumeric_char(c) }
}

/// The class of the character `c`.
pub fn classify(c: char) -> (class: CharClass)
    ensures
        class == class_of(c),
{
    CharClass { space: is_whitespace(c), alnum: is_alphanumeric(c) }
}

/// A source text for the lexer: its characters, each with its class.
pub struct Source {
    pub text: Seq<char>,
    pub classes: Seq<CharClass>,
}

impl Source {
    /// The source text `text`, with the classes of its characters.
    pub open spec fn of(text: Seq<char>) -> Source {
        Source { text, classes: Seq::new(text.len(), |i: int| class_of(text[i])) }
    }

    /// Whether the character at `pos` is white space.
    pub open spec fn is_space(self, pos: int) -> bool {
        0 <= pos < self.text.len() && pos < self.classes.len() && self.classes[pos].space
    }

    /// Whether the character at `pos` can be part of an identifier:
    /// identifiers go on with letters, digits and underscores.
    pub open spec fn is_ident_part(self, pos: int) -> bool {
        0 <= pos < self.text.len() && pos < self.classes.len() && (self.classes[pos].alnum
            || self.text[pos] == '_')
    }
}

pub open spec fn is_digit(c: char) -> bool {
    '0' <= c <= '9'
}

/// Identifiers start with an ASCII letter.
pub open spec fn is_ident_start(c: char) -> bool {
    'a' <= c <= 'z' || 'A' <= c <= 'Z'
}

/// The index of the first character at or after `pos` that is no white space.
pub open spec fn skip_space(src: Source, pos: int) -> int
    decreases src.text.len() - pos,
{
    if src.is_space(pos) {
        skip_space(src, pos + 1)
    } else {
        pos
    }
}

/// The index of the first character at or after `pos` that is no digit.
pub open spec fn digits_end(text: Seq<char>, pos: int) -> int
    decreases text.len() - pos,
{
    if 0 <= pos < text.len() && is_digit(text[pos]) {
        digits_end(text, pos + 1)
    } else {
        pos
    }
}

/// The index of the first character at or after `pos` that cannot be part
/// of an identifier.
pub open spec fn ident_end(src: Source, pos: int) -> int
    decreases src.text.len() - pos,
{
    if src.is_ident_part(pos) {
        ident_end(src, pos + 1)
    } else {
        pos
    }
}

/// The keyword that `word` spells, if it spells one. Keywords are reserved.
pub open spec fn keyword_of(word: Seq<char>) -> Option<Keyword> {
    if word == "begin"@ {
        Some(Keyword::Begin)
    } else if word == "call"@ {
        Some(Keyword::Call)
    } else if word == "const"@ {
        Some(Keyword::Const)
    } else if word == "do"@ {
        Some(Keyword::Do)
    } else if word == "end"@ {
        Some(Keyword::End)
    } else if word == "if"@ {
        Some(Keyword::If)
    } else if word == "odd"@ {
        Some(Keyword::Odd)
    } else if word == "procedure"@ {
        Some(Keyword::Procedure)
    } else if word == "read"@ {
        Some(Keyword::Read)
    } else if word == "then"@ {
        Some(Keyword::Then)
    } else if word == "var"@ {
        Some(Keyword::Var)
    } else if word == "while"@ {
        Some(Keyword::While)
    } else if word == "write"@ {
        Some(Keyword::Write)
    } else {
        None
    }
}

/// What the lexer finds at a position: a token or an error, and the
/// characters `start..end` that it is made of.
pub struct Lexed {
    pub outcome: std::result::Result<TokenKind, ErrorKind>,
    pub start: int,
    pub end: int,
}

/// The token of one character that `c` is, if it is one.
pub open spec fn punctuation(c: char) -> Option<TokenKind> {
    if c == ',' {
        Some(TokenKind::Comma)
    } else if c == '.' {
        Some(TokenKind::Dot)
    } else if c == '=' {
        Some(TokenKind::Eq)
    } else if c == '#' {
        Some(TokenKind::Hash)
    } else if c == ';' {
        Some(TokenKind::Semi)
    } else if c == '+' {
        Some(TokenKind::Plus)
    } else if c == '-' {
        Some(TokenKind::Minus)
    } else if c == '*' {
        Some(TokenKind::Star)
    } else if c == '/' {
        Some(TokenKind::Slash)
    } else if c == '(' {
        Some(TokenKind::ParenLeft)
    } else if c == ')' {
        Some(TokenKind::ParenRight)
    } else if c == '!' {
        Some(TokenKind::Keyword(Keyword::Write))
    } else if c == '?' {
        Some(TokenKind::Keyword(Keyword::Read))
    } else {
        None
    }
}

/// The token that starts at `start`, where a character stands that is no
/// white space.
#[verifier::opaque]
pub open spec fn lex_at(src: Source, start: int) -> Lexed
    recommends
        0 <= start < src.text.len(),
{
    let text = src.text;
    let c = text[start];
    let followed = start + 1 < text.len() && text[start + 1] == '=';
    if is_digit(c) {
        Lexed { outcome: Ok(TokenKind::Num), start, end: digits_end(text, start + 1) }
    } else if is_ident_start(c) {
        let end = ident_end(src, start + 1);
        Lexed {
            outcome: Ok(
                match keyword_of(text.subrange(start, end)) {
                    Some(keyword) => TokenKind::Keyword(keyword),
                    None => TokenKind::Ident,
                },
            ),
            start,
            end,
        }
    } else if c == ':' {
        if followed {
            Lexed { outcome: Ok(TokenKind::Assign), start, end: start + 2 }
        } else {
            Lexed { outcome: Err(ErrorKind::UnexpectedChar), start, end: start + 1 }
        }
    } else if c == '<' {
        if followed {
            Lexed { outcome: Ok(TokenKind::LessEq), start, end: start + 2 }
        } else {
            Lexed { outcome: Ok(TokenKind::Less), start, end: start + 1 }
        }
    } else if c == '>' {
        if followed {
            Lexed { outcome: Ok(TokenKind::GreatEq), start, end: start + 2 }
        } else {
            Lexed { outcome: Ok(TokenKind::Great), start, end: start + 1 }
        }
    } else {
        match punctuation(c) {
            Some(kind) => Lexed { outcome: Ok(kind), start, end: start + 1 },
            None => Lexed { outcome: Err(ErrorKind::UnexpectedChar), start, end: start + 1 },
        }
    }
}

/// The next token of the source at or after `pos`: white space is skipped,
/// and the end of the text is a token of its own. A text whose offsets do
/// not fit into a span has no tokens.
pub open spec fn lex(src: Source, pos: int) -> Lexed {
    let start = skip_space(src, pos);
    if width(src.text) > u32::MAX {
        Lexed { outcome: Err(ErrorKind::SourceTooLarge), start: pos, end: pos }
    } else if start >= src.text.len() {
        Lexed { outcome: Ok(TokenKind::Eof), start, end: start }
    } else {
        lex_at(src, start)
    }
}

/// The span of the characters `start..end` of `text`: `(byte_offset, size)`.
pub open spec fn span_of(text: Seq<char>, start: int, end: int) -> (u32, u32) {
    (offset_of(text, start) as u32, (offset_of(text, end) - offset_of(text, start)) as u32)
}

pub proof fn lemma_skip_space_range(src: Source, pos: int)
    requires
        0 <= pos <= src.text.len(),
    ensures
        pos <= skip_space(src, pos) <= src.text.len(),
    decreases src.text.len() - pos,
{
    if src.is_space(pos) {
        lemma_skip_space_range(src, pos + 1);
    }
}

/// A run of digits holds digits only.
pub proof fn lemma_digits_run(text: Seq<char>, pos: int, i: int)
    requires
        0 <= pos <= i < digits_end(text, pos),
    ensures
        i < text.len(),
        is_digit(text[i]),
    decreases text.len() - pos,
{
    if pos < text.len() && is_digit(text[pos]) {
        if pos < i {
            lemma_digits_run(text, pos + 1, i);
        }
    }
}

/// A number token is made of digits.
pub proof fn lemma_num_digits(src: Source, pos: int, i: int)
    requires
        0 <= pos <= src.text.len(),
        lex(src, pos).outcome == Ok::<TokenKind, ErrorKind>(TokenKind::Num),
        lex(src, pos).start <= i < lex(src, pos).end,
    ensures
        0 <= i < src.text.len(),
        is_digit(src.text[i]),
{
    reveal(lex_at);
    lemma_skip_space_range(src, pos);
    let start = skip_space(src, pos);
    if i > start {
        lemma_digits_run(src.text, start + 1, i);
    }
}

pub proof fn lemma_digits_end_range(text: Seq<char>, pos: int)
    requires
        0 <= pos <= text.len(),
    ensures
        pos <= digits_end(text, pos) <= text.len(),
    decreases text.len() - pos,
{
    if pos < text.len() && is_digit(text[pos]) {
        lemma_digits_end_range(text, pos + 1);
    }
}

pub proof fn lemma_ident_end_range(src: Source, pos: int)
    requires
        0 <= pos <= src.text.len(),
    ensures
        pos <= ident_end(src, pos) <= src.text.len(),
    decreases src.text.len() - pos,
{
    if src.is_ident_part(pos) {
        lemma_ident_end_range(src, pos + 1);
    }
}

/// What is found at a position lies behind it and in the text; only the
/// end of the text is an empty token.
pub proof fn lemma_lex_range(src: Source, pos: int)
    requires
        0 <= pos <= src.text.len(),
    ensures
        pos <= lex(src, pos).start <= lex(src, pos).end <= src.text.len(),
        lex(src, pos).outcome != Ok::<TokenKind, ErrorKind>(TokenKind::Eof) && lex(
            src,
            pos,
        ).outcome != Err::<TokenKind, ErrorKind>(ErrorKind::SourceTooLarge) ==> lex(src, pos).start
            < lex(src, pos).end,
        lex(src, pos).outcome matches Err(kind) ==> kind == ErrorKind::SourceTooLarge || kind
            == ErrorKind::UnexpectedChar,
{
    reveal(lex_at);
    lemma_skip_space_range(src, pos);
    let start = skip_space(src, pos);
    if start < src.text.len() {
        lemma_digits_end_range(src.text, start + 1);
        lemma_ident_end_range(src, start + 1);
    }
}

/// The span of a token of a text that fits keeps its characters whole, and
/// the token covers the characters it was made of.
pub proof fn lemma_span_fragment(text: Seq<char>, start: int, end: int, token: Token)
    requires
        0 <= start <= end <= text.len(),
        width(text) <= u32::MAX,
        token.span == span_of(text, start, end),
    ensures
        token.fits(text),
        token.fragment_spec(text) == text.subrange(start, end),
{
    lemma_offset_bound(text, start);
    lemma_offset_bound(text, end);
    lemma_offset_monotone(text, start, end);
    lemma_index_at(text, start);
    lemma_index_at(text, end);
}

pub struct Lexer<'a> {
    /// The source text.
    text: &'a str,
    /// The characters of the text.
    chars: Vec<char>,
    /// The classes of the characters.
    classes: Vec<CharClass>,
    /// Index of the first character that was not consumed yet.
    next: usize,
    /// Index of the first character of the current token.
    start: usize,
    /// Span of the text fragment that was consumed. `(byte_offset, size)`
    span: (u32, u32),
    /// Whether every byte offset into the text fits into a span.
    fits: bool,
    /// File where the source text is from.
    pub file: String,
}

impl<'a> Lexer<'a> {
    /// The source text, with the classes of its characters.
    pub closed spec fn source(&self) -> Source {
        Source { text: self.text@, classes: self.classes@ }
    }

    /// The name of the file where the source text is from.
    pub closed spec fn origin(&self) -> Seq<char> {
        self.file@
    }

    /// The characters of the token that was read last.
    pub closed spec fn consumed(&self) -> Seq<char> {
        self.text@.subrange(self.start as int, self.next as int)
    }

    /// Index of the first character that was not consumed yet.
    pub closed spec fn cursor(&self) -> int {
        self.next as int
    }

    pub closed spec fn wf(&self) -> bool {
        &&& self.chars@ == self.text@
        &&& self.classes@.len() == self.text@.len()
        &&& self.start <= self.next <= self.chars@.len()
        &&& self.fits == (width(self.text@) <= u32::MAX)
        &&& self.fits ==> self.span == span_of(self.text@, self.start as int, self.next as int)
    }

    /// Whether only the cursor differs between the two.
    pub closed spec fn same_source(&self, other: &Self) -> bool {
        &&& self.text == other.text
        &&& self.classes == other.classes
        &&& self.file == other.file
    }

    /// The cursor of a lexer stands in its text.
    pub proof fn lemma_cursor_in_text(&self)
        requires
            self.wf(),
        ensures
            0 <= self.cursor() <= self.source().text.len(),
    {
    }

    /// A lexer at the start of `text`, which was read from `file`. The
    /// classes of the characters are those that the standard library tells.
    pub fn new(text: &'a str, file: &str) -> (lexer: Self)
        ensures
            lexer.wf(),
            lexer.source() == Source::of(text@),
            lexer.cursor() == 0,
            lexer.origin() == file@,
    {
        let chars = chars_of(text);
        let mut classes: Vec<CharClass> = Vec::new();
        let mut i: usize = 0;
        while i < chars.len()
            invariant
                i <= chars@.len(),
                classes@.len() == i,
                forall|k: int| 0 <= k < i ==> classes@[k] == class_of(chars@[k]),
            decreases chars@.len() - i,
        {
            classes.push(classify(chars[i]));
            i = i + 1;
        }
        assert(classes@ =~= Source::of(text@).classes);
        Self::with_classes(text, file, classes)
    }

    /// A lexer at the start of `text`, which was read from `file`, where
    /// `classes` tells the class of each character.
    pub fn with_classes(text: &'a str, file: &str, classes: Vec<CharClass>) -> (lexer: Self)
        requires
            classes@.len() == text@.len(),
        ensures
            lexer.wf(),
            lexer.source() == (Source { text: text@, classes: classes@ }),
            lexer.cursor() == 0,
            lexer.origin() == file@,
    {
        let chars = chars_of(text);
        let mut total: u64 = 0;
        let mut i: usize = 0;
        let mut fits = true;
        while i < chars.len() && fits
            invariant
                chars@ == text@,
                i <= chars@.len(),
                fits ==> total == offset_of(text@, i as int) && total <= u32::MAX,
                !fits ==> width(text@) > u32::MAX,
            decreases chars@.len() - i,
        {
            proof {
                lemma_offset_step(text@, i as int);
                lemma_offset_bound(text@, i + 1);
            }
            let w = char_width(chars[i]) as u64;
            if total + w > u32::MAX as u64 {
                fits = false;
            } else {
                total = total + w;
            }
            i = i + 1;
        }
        proof {
            lemma_offset_bound(text@, i as int);
        }
        Self {
            text,
            chars,
            classes,
            next: 0,
            start: 0,
            span: (0, 0),
            fits,
            file: String::from_str(file),
        }
    }

    /// The name of the file where the source text is from.
    pub fn file(&self) -> (r: &str)
        ensures
            r@ == self.origin(),
    {
        self.file.as_str()
    }

    pub fn text(&self) -> (r: &'a str)
        ensures
            r@ == self.source().text,
    {
        self.text
    }

    /// The next token, and the cursor behind it.
    pub fn next_token(&mut self) -> (r: Result<Token>)
        requires
            old(self).wf(),
        ensures
            final(self).wf(),
            final(self).same_source(old(self)),
            final(self).source() == old(self).source(),
            final(self).origin() == old(self).origin(),
            0 <= old(self).cursor() <= final(self).cursor() <= old(self).source().text.len(),
            ({
                let text = old(self).source().text;
                let lexed = lex(old(self).source(), old(self).cursor());
                &&& final(self).cursor() == lexed.end
                &&& lexed.outcome is Ok ==> final(self).consumed() == text.subrange(
                    lexed.start,
                    lexed.end,
                )
                &&& match lexed.outcome {
                    Ok(kind) => r matches Ok(token) && token.kind == kind && token.span == span_of(
                        text,
                        lexed.start,
                        lexed.end,
                    ) && token.fits(text) && token.fragment_spec(text) == text.subrange(
                        lexed.start,
                        lexed.end,
                    ),
                    Err(kind) => r matches Err(e) && if kind == ErrorKind::SourceTooLarge {
                        e.is(kind, Seq::empty())
                    } else {
                        e.is_at(
                            kind,
                            text.subrange(lexed.start, lexed.end),
                            span_of(text, lexed.start, lexed.end),
                            old(self).origin(),
                        )
                    },
                }
            }),
    {
        if !self.fits {
            return Err(Error::new(ErrorKind::SourceTooLarge));
        }
        self.ignore_whitespace();

        self.start_token();
        proof {
            reveal(lex_at);
            lemma_lex_range(self.source(), old(self).next as int);
        }

        let token = match self.bump() {
            Some((_, ch)) => {
                if ch >= '0' && ch <= '9' {
                    self.lex_number()
                } else if (ch >= 'a' && ch <= 'z') || (ch >= 'A' && ch <= 'Z') {
                    self.lex_ident()
                } else if ch == ',' {
                    self.make_token(TokenKind::Comma)
                } else if ch == '.' {
                    self.make_token(TokenKind::Dot)
                } else if ch == '=' {
                    self.make_token(TokenKind::Eq)
                } else if ch == '#' {
                    self.make_token(TokenKind::Hash)
                } else if ch == ';' {
                    self.make_token(TokenKind::Semi)
                } else if ch == '+' {
                    self.make_token(TokenKind::Plus)
                } else if ch == '-' {
                    self.make_token(TokenKind::Minus)
                } else if ch == '*' {
                    self.make_token(TokenKind::Star)
                } else if ch == '/' {
                    self.make_token(TokenKind::Slash)
                } else if ch == ':' {
                    if self.peek_is('=') {
                        self.bump();
                        self.make_token(TokenKind::Assign)
                    } else {
                        return Err(self.unexpected());
                    }
                } else if ch == '(' {
                    self.make_token(TokenKind::ParenLeft)
                } else if ch == ')' {
                    self.make_token(TokenKind::ParenRight)
                } else if ch == '<' {
                    if self.peek_is('=') {
                        self.bump();
                        self.make_token(TokenKind::LessEq)
                    } else {
                        self.make_token(TokenKind::Less)
                    }
                } else if ch == '>' {
                    if self.peek_is('=') {
                        self.bump();
                        self.make_token(TokenKind::GreatEq)
                    } else {
                        self.make_token(TokenKind::Great)
                    }
                } else if ch == '!' {
                    self.make_token(TokenKind::Keyword(Keyword::Write))
                } else if ch == '?' {
                    self.make_token(TokenKind::Keyword(Keyword::Read))
                } else {
                    return Err(self.unexpected());
                }
            },
            // End-of-file
            None => self.make_token(TokenKind::Eof),
        };
        proof {
            lemma_span_fragment(self.text@, self.start as int, self.next as int, token);
        }

        Ok(token)
    }

    /// The error for the character that was consumed last and starts no token.
    fn unexpected(&self) -> (e: Error)
        requires
            self.wf(),
            self.fits,
        ensures
            e.is_at(
                ErrorKind::UnexpectedChar,
                self.text@.subrange(self.start as int, self.next as int),
                span_of(self.text@, self.start as int, self.next as int),
                self.file@,
            ),
    {
        let fragment = self.fragment();
        Error::located(ErrorKind::UnexpectedChar, fragment.as_str(), self.span, self.file.as_str())
    }

    /// The text of the token that was read last.
    pub fn fragment(&self) -> (r: String)
        requires
            self.wf(),
        ensures
            r@ == self.consumed(),
    {
        string_of(&self.chars, self.start, self.next)
    }

    /// Consumes one character, which becomes part of the current token.
    fn bump(&mut self) -> (r: Option<(usize, char)>)
        requires
            old(self).wf(),
            old(self).fits,
        ensures
            final(self).wf(),
            final(self).same_source(old(self)),
            final(self).start == old(self).start,
            match r {
                Some((pos, c)) => {
                    &&& old(self).next < old(self).text@.len()
                    &&& c == old(self).text@[old(self).next as int]
                    &&& final(self).next == old(self).next + 1
                    &&& pos == offset_of(final(self).text@, final(self).next as int)
                },
                None => old(self).next == old(self).text@.len() && final(self).next == old(
                    self,
                ).next,
            },
    {
        if self.next < self.chars.len() {
            let c = self.chars[self.next];
            // Length in bytes when UTF-8 encoded.
            let char_len = char_width(c);
            proof {
                lemma_offset_step(self.text@, self.next as int);
                lemma_offset_bound(self.text@, self.next + 1);
                lemma_offset_monotone(self.text@, self.start as int, self.next as int);
            }
            self.next = self.next + 1;
            self.span = (self.span.0, self.span.1 + char_len as u32);
            Some((self.pos(), c))
        } else {
            None
        }
    }

    /// The character that would be consumed next.
    fn peek(&self) -> (r: Option<char>)
        requires
            self.wf(),
        ensures
            r == if self.next < self.text@.len() {
                Some(self.text@[self.next as int])
            } else {
                None
            },
    {
        if self.next < self.chars.len() {
            Some(self.chars[self.next])
        } else {
            None
        }
    }

    /// Whether the character that would be consumed next is `c`.
    fn peek_is(&self, c: char) -> (b: bool)
        requires
            self.wf(),
        ensures
            b == (self.next < self.text@.len() && self.text@[self.next as int] == c),
    {
        match self.peek() {
            Some(next) => next == c,
            None => false,
        }
    }

    /// Current position in the source text, in bytes.
    fn pos(&self) -> (r: usize)
        requires
            self.wf(),
            self.fits,
        ensures
            r == offset_of(self.text@, self.next as int),
    {
        proof {
            lemma_offset_bound(self.text@, self.next as int);
            lemma_offset_monotone(self.text@, self.start as int, self.next as int);
            lemma_offset_bound(self.text@, self.start as int);
        }
        (self.span.0 + self.span.1) as usize
    }

    /// Starts a token at the current position.
    fn start_token(&mut self)
        requires
            old(self).wf(),
            old(self).fits,
        ensures
            final(self).wf(),
            final(self).same_source(old(self)),
            final(self).next == old(self).next,
            final(self).start == old(self).next,
    {
        let pos = self.pos();
        self.start = self.next;
        self.span = (pos as u32, 0);
    }

    /// The token of `kind` that is made of the characters consumed since
    /// the token was started.
    fn make_token(&mut self, kind: TokenKind) -> (token: Token)
        requires
            old(self).wf(),
            old(self).fits,
        ensures
            *final(self) == *old(self),
            token.kind == kind,
            token.span == span_of(
                old(self).text@,
                old(self).start as int,
                old(self).next as int,
            ),
    {
        Token { kind, span: self.span }
    }

    /// Ignore all whitespace. Newlines are not significant to this language.
    fn ignore_whitespace(&mut self)
        requires
            old(self).wf(),
            old(self).fits,
        ensures
            final(self).wf(),
            final(self).same_source(old(self)),
            final(self).next == skip_space(old(self).source(), old(self).next as int),
    {
        loop
            invariant
                self.wf(),
                self.fits,
                self.same_source(old(self)),
                skip_space(self.source(), self.next as int) == skip_space(
                    old(self).source(),
                    old(self).next as int,
                ),
            ensures
                self.next == skip_space(old(self).source(), old(self).next as int),
            decreases self.text@.len() - self.next,
        {
            if self.next < self.classes.len() && self.classes[self.next].space {
                self.bump();
            } else {
                break ;
            }
        }
    }

    /// The keyword that the current token spells, if it spells one.
    fn try_keyword(&self) -> (r: Option<Keyword>)
        requires
            self.wf(),
        ensures
            r == keyword_of(self.text@.subrange(self.start as int, self.next as int)),
    {
        let (chars, lo, hi) = (&self.chars, self.start, self.next);
        if slice_is(chars, lo, hi, "begin") {
            Some(Keyword::Begin)
        } else if slice_is(chars, lo, hi, "call") {
            Some(Keyword::Call)
        } else if slice_is(chars, lo, hi, "const") {
            Some(Keyword::Const)
        } else if slice_is(chars, lo, hi, "do") {
            Some(Keyword::Do)
        } else if slice_is(chars, lo, hi, "end") {
            Some(Keyword::End)
        } else if slice_is(chars, lo, hi, "if") {
            Some(Keyword::If)
        } else if slice_is(chars, lo, hi, "odd") {
            Some(Keyword::Odd)
        } else if slice_is(chars, lo, hi, "procedure") {
            Some(Keyword::Procedure)
        } else if slice_is(chars, lo, hi, "read") {
            Some(Keyword::Read)
        } else if slice_is(chars, lo, hi, "then") {
            Some(Keyword::Then)
        } else if slice_is(chars, lo, hi, "var") {
            Some(Keyword::Var)
        } else if slice_is(chars, lo, hi, "while") {
            Some(Keyword::While)
        } else if slice_is(chars, lo, hi, "write") {
            Some(Keyword::Write)
        } else {
            None
        }
    }

    /// Numbers are sequences of digits.
    fn lex_number(&mut self) -> (token: Token)
        requires
            old(self).wf(),
            old(self).fits,
        ensures
            final(self).wf(),
            final(self).same_source(old(self)),
            final(self).start == old(self).start,
            final(self).next == digits_end(old(self).text@, old(self).next as int),
            token.kind == TokenKind::Num,
            token.span == span_of(
                old(self).text@,
                final(self).start as int,
                final(self).next as int,
            ),
    {
        loop
            invariant
                self.wf(),
                self.fits,
                self.same_source(old(self)),
                self.start == old(self).start,
                digits_end(self.text@, self.next as int) == digits_end(
                    old(self).text@,
                    old(self).next as int,
                ),
            ensures
                self.next == digits_end(old(self).text@, old(self).next as int),
            decreases self.text@.len() - self.next,
        {
            match self.peek() {
                Some(ch) => {
                    if ch >= '0' && ch <= '9' {
                        self.bump();
                    } else {
                        break ;
                    }
                },
                None => {
                    break ;
                },
            }
        }

        self.make_token(TokenKind::Num)
    }

    /// Identifiers start with a letter, and go on with letters, digits and
    /// underscores. A word that spells a keyword is that keyword.
    fn lex_ident(&mut self) -> (token: Token)
        requires
            old(self).wf(),
            old(self).fits,
        ensures
            final(self).wf(),
            final(self).same_source(old(self)),
            final(self).start == old(self).start,
            final(self).next == ident_end(old(self).source(), old(self).next as int),
            token.kind == match keyword_of(
                old(self).text@.subrange(final(self).start as int, final(self).next as int),
            ) {
                Some(keyword) => TokenKind::Keyword(keyword),
                None => TokenKind::Ident,
            },
            token.span == span_of(
                old(self).text@,
                final(self).start as int,
                final(self).next as int,
            ),
    {
        loop
            invariant
                self.wf(),
                self.fits,
                self.same_source(old(self)),
                self.start == old(self).start,
                ident_end(self.source(), self.next as int) == ident_end(
                    old(self).source(),
                    old(self).next as int,
                ),
            ensures
                self.next == ident_end(old(self).source(), old(self).next as int),
            decreases self.text@.len() - self.next,
        {
            match self.peek() {
                Some(ch) => {
                    if self.classes[self.next].alnum || ch == '_' {
                        self.bump();
                    } else {
                        break ;
                    }
                },
                None => {
                    break ;
                },
            }
        }

        let kind = match self.try_keyword() {
            Some(keyword) => TokenKind::Keyword(keyword),
            None => TokenKind::Ident,
        };

        self.make_token(kind)
    }
}

} // verus!
