//! Lexical tokens.
use vstd::prelude::*;
use crate::text::{chars_of, char_width, offset_of, lemma_offset_monotone, lemma_offset_step};

verus! {

#[derive(Debug, Clone, Copy, PartialEq, Eq, Structural)]
pub enum Keyword {
    Begin,
    Call,
    Const,
    Do,
    End,
    If,
    Odd,
    Procedure,
    /// Same as `? <ident>`.
    Read,
    Then,
    Var,
    While,
    /// Same as `! <expression>`.
    Write,
}

#[derive(Debug, Clone, Copy, PartialEq, Eq, Structural)]
pub enum TokenKind {
    /// `:=`
    Assign,
    /// `,`
    Comma,
    /// `.`
    Dot,
    /// `=`
    Eq,
    /// `#`
    Hash,
    /// `;`
    Semi,
    /// `+`
    Plus,
    /// `-`
    Minus,
    /// `*`
    Star,
    /// `/`
    Slash,
    /// `(`
    ParenLeft,
    /// `)`
    ParenRight,
    /// `<`
    Less,
    /// `<=`
    LessEq,
    /// `>`
    Great,
    /// `>=`
    GreatEq,
    /// Identifier.
    Ident,
    /// Integer literal.
    Num,
    Keyword(Keyword),
    /// End-of-file.
    Eof,
}

#[derive(Debug, Clone, Copy, PartialEq, Eq)]
pub struct Token {
    pub kind: TokenKind,
    /// Span of the text fragment that the token covers: `(byte_offset, size)`.
    pub span: (u32, u32),
}

impl Keyword {
    /// The keyword as it is shown in messages.
    pub open spec fn name_spec(self) -> Seq<char> {
        match self {
            Keyword::Begin => "'begin'"@,
            Keyword::Call => "'call'"@,
            Keyword::Const => "'const'"@,
            Keyword::Do => "'do'"@,
            Keyword::End => "'end'"@,
            Keyword::If => "'if'"@,
            Keyword::Odd => "'odd'"@,
            Keyword::Procedure => "'procedure'"@,
            Keyword::Read => "'read'"@,
            Keyword::Then => "'then'"@,
            Keyword::Var => "'var'"@,
            Keyword::While => "'while'"@,
            Keyword::Write => "'write'"@,
        }
    }

    pub fn name(&self) -> (r: &'static str)
        ensures
            r@ == self.name_spec(),
    {
        match self {
            Keyword::Begin => "'begin'",
            Keyword::Call => "'call'",
            Keyword::Const => "'const'",
            Keyword::Do => "'do'",
            Keyword::End => "'end'",
            Keyword::If => "'if'",
            Keyword::Odd => "'odd'",
            Keyword::Procedure => "'procedure'",
            Keyword::Read => "'read'",
            Keyword::Then => "'then'",
            Keyword::Var => "'var'",
            Keyword::While => "'while'",
            Keyword::Write => "'write'",
        }
    }
}

impl TokenKind {
    /// The kind of token as it is shown in messages.
    pub open spec fn name_spec(self) -> Seq<char> {
        match self {
            TokenKind::Assign => "assignment"@,
            TokenKind::Comma => "comma"@,
            TokenKind::Dot => "period"@,
            TokenKind::Eq => "equal sign"@,
            TokenKind::Hash => "hash"@,
            TokenKind::Semi => "semicolon"@,
            TokenKind::Plus => "plus"@,
            TokenKind::Minus => "minus"@,
            TokenKind::Star => "asterisk"@,
            TokenKind::Slash => "forward slash"@,
            TokenKind::ParenLeft => "left parentheses"@,
            TokenKind::ParenRight => "right parentheses"@,
            TokenKind::Less => "less than"@,
            TokenKind::LessEq => "less-or-equal than"@,
            TokenKind::Great => "greater than"@,
            TokenKind::GreatEq => "greater-or-equal than"@,
            TokenKind::Ident => "identifier"@,
            TokenKind::Num => "number"@,
            TokenKind::Keyword(kw) => kw.name_spec(),
            TokenKind::Eof => "end-of-file"@,
        }
    }

    pub fn name(&self) -> (r: &'static str)
        ensures
            r@ == self.name_spec(),
    {
        match self {
            TokenKind::Assign => "assignment",
            TokenKind::Comma => "comma",
            TokenKind::Dot => "period",
            TokenKind::Eq => "equal sign",
            TokenKind::Hash => "hash",
            TokenKind::Semi => "semicolon",
            TokenKind::Plus => "plus",
            TokenKind::Minus => "minus",
            TokenKind::Star => "asterisk",
            TokenKind::Slash => "forward slash",
            TokenKind::ParenLeft => "left parentheses",
            TokenKind::ParenRight => "right parentheses",
            TokenKind::Less => "less than",
            TokenKind::LessEq => "less-or-equal than",
            TokenKind::Great => "greater than",
            TokenKind::GreatEq => "greater-or-equal than",
            TokenKind::Ident => "identifier",
            TokenKind::Num => "number",
            TokenKind::Keyword(kw) => kw.name(),
            TokenKind::Eof => "end-of-file",
        }
    }
}

/// Whether byte offset `off` is where a character of `s` starts, or the end of `s`.
pub open spec fn is_boundary(s: Seq<char>, off: int) -> bool {
    exists|i: int| 0 <= i <= s.len() && #[trigger] offset_of(s, i) == off
}

/// Index of the character of `s` that starts at byte offset `off`.
pub open spec fn index_at(s: Seq<char>, off: int) -> int {
    choose|i: int| 0 <= i <= s.len() && #[trigger] offset_of(s, i) == off
}

/// The character that starts at a byte offset is found by its index alone.
pub proof fn lemma_index_at(s: Seq<char>, i: int)
    requires
        0 <= i <= s.len(),
    ensures
        is_boundary(s, offset_of(s, i) as int),
        index_at(s, offset_of(s, i) as int) == i,
{
    let off = offset_of(s, i) as int;
    let j = index_at(s, off);
    assert(0 <= j <= s.len() && offset_of(s, j) == off);
    if j < i {
        lemma_offset_monotone(s, j, i);
    } else if i < j {
        lemma_offset_monotone(s, i, j);
    }
}

/// Whether `span` lies in `text` and keeps its characters whole.
pub open spec fn covers(text: Seq<char>, span: (u32, u32)) -> bool {
    &&& is_boundary(text, span.0 as int)
    &&& is_boundary(text, span.0 + span.1)
}

/// The characters of `text` that `span` covers.
pub open spec fn covered(text: Seq<char>, span: (u32, u32)) -> Seq<char> {
    text.subrange(index_at(text, span.0 as int), index_at(text, span.0 + span.1))
}

/// The index of the character of `chars` that starts at byte offset
/// `target`, looked for from the index `from`, which lies at offset `at`.
fn seek(chars: &Vec<char>, from: usize, at: u64, target: u64) -> (r: Option<usize>)
    requires
        from <= chars@.len(),
        at == offset_of(chars@, from as int),
        at <= target <= 2 * u32::MAX,
    ensures
        match r {
            Some(i) => from <= i <= chars@.len() && offset_of(chars@, i as int) == target,
            None => !is_boundary(chars@, target as int),
        },
{
    let mut i: usize = from;
    let mut at: u64 = at;
    while at < target && i < chars.len()
        invariant
            from <= i <= chars@.len(),
            at == offset_of(chars@, i as int),
            target <= 2 * u32::MAX,
            offset_of(chars@, from as int) <= target,
            forall|k: int| from <= k < i ==> offset_of(chars@, k) < target,
        decreases chars@.len() - i,
    {
        proof {
            lemma_offset_step(chars@, i as int);
        }
        at = at + char_width(chars[i]) as u64;
        i = i + 1;
    }
    if at == target {
        Some(i)
    } else {
        proof {
            assert forall|k: int| 0 <= k <= chars@.len() implies offset_of(chars@, k)
                != target by {
                if k >= i {
                    lemma_offset_monotone(chars@, i as int, k);
                } else if k < from {
                    lemma_offset_monotone(chars@, k, from as int);
                }
            }
        }
        None
    }
}

/// The part of `text` that `span` covers, if the span lies in the text and
/// keeps its characters whole.
pub fn excerpt<'a>(text: &'a str, span: (u32, u32)) -> (r: Option<&'a str>)
    ensures
        match r {
            Some(part) => covers(text@, span) && part@ == covered(text@, span),
            None => !covers(text@, span),
        },
{
    let chars = chars_of(text);
    let lo: u64 = span.0 as u64;
    let hi: u64 = lo + span.1 as u64;
    proof {
        crate::text::lemma_offset_bound(text@, 0);
    }
    let first = match seek(&chars, 0, 0, lo) {
        Some(i) => i,
        None => {
            return None;
        },
    };
    let last = match seek(&chars, first, lo, hi) {
        Some(i) => i,
        None => {
            return None;
        },
    };
    proof {
        lemma_index_at(text@, first as int);
        lemma_index_at(text@, last as int);
    }
    Some(text.substring_char(first, last))
}

impl Token {
    pub fn new(kind: TokenKind, span: (u32, u32)) -> (r: Self)
        ensures
            r.kind == kind,
            r.span == span,
    {
        Self { kind, span }
    }

    /// Whether the span of this token lies in `text` and keeps its characters whole.
    pub open spec fn fits(&self, text: Seq<char>) -> bool {
        covers(text, self.span)
    }

    /// The characters of `text` that the span of this token covers.
    pub open spec fn fragment_spec(&self, text: Seq<char>) -> Seq<char> {
        covered(text, self.span)
    }

    /// The part of `text` that the token covers.
    pub fn fragment<'a>(&self, text: &'a str) -> (r: &'a str)
        requires
            self.fits(text@),
        ensures
            r@ == self.fragment_spec(text@),
    {
        excerpt(text, self.span).unwrap()
    }
}

} // verus!
