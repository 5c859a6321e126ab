//! Source text as a sequence of characters, with byte offsets.
use vstd::prelude::*;
use vstd::std_specs::iter::IteratorSpec;

verus! {

/// Number of bytes that `c` takes when encoded as UTF-8.
pub open spec fn utf8_width(c: char) -> nat {
    if (c as u32) < 0x80 {
        1
    } else if (c as u32) < 0x800 {
        2
    } else if (c as u32) < 0x1_0000 {
        3
    } else {
        4
    }
}

/// Number of bytes that the characters of `s` take when encoded as UTF-8.
pub open spec fn width(s: Seq<char>) -> nat
    decreases s.len(),
{
    if s.len() == 0 {
        0
    } else {
        width(s.drop_last()) + utf8_width(s.last())
    }
}

/// Byte offset of the character at index `i` of `s`.
pub open spec fn offset_of(s: Seq<char>, i: int) -> nat {
    width(s.take(i))
}

/// Offsets grow by the width of the character that is stepped over.
pub proof fn lemma_offset_step(s: Seq<char>, i: int)
    requires
        0 <= i < s.len(),
    ensures
        offset_of(s, i + 1) == offset_of(s, i) + utf8_width(s[i]),
        1 <= utf8_width(s[i]) <= 4,
{
    assert(s.take(i + 1).drop_last() =~= s.take(i));
    assert(s.take(i + 1).last() == s[i]);
}

/// Offsets grow strictly with the index.
pub proof fn lemma_offset_monotone(s: Seq<char>, i: int, j: int)
    requires
        0 <= i <= j <= s.len(),
    ensures
        offset_of(s, i) + (j - i) <= offset_of(s, j),
    decreases j - i,
{
    if i < j {
        lemma_offset_monotone(s, i, j - 1);
        lemma_offset_step(s, j - 1);
    }
}

/// No offset lies beyond the width of the whole text.
pub proof fn lemma_offset_bound(s: Seq<char>, j: int)
    requires
        0 <= j <= s.len(),
    ensures
        offset_of(s, j) <= width(s),
        offset_of(s, s.len() as int) == width(s),
        offset_of(s, 0) == 0,
{
    lemma_offset_monotone(s, j, s.len() as int);
    assert(s.take(s.len() as int) =~= s);
}

/// Number of bytes that `c` takes when encoded as UTF-8.
pub fn char_width(c: char) -> (w: usize)
    ensures
        w == utf8_width(c),
{
    let code: u32 = c as u32;
    if code < 0x80 {
        1
    } else if code < 0x800 {
        2
    } else if code < 0x1_0000 {
        3
    } else {
        4
    }
}

/// `String::push`: appends the character `c` to the end of the string.
#[verifier::external_body]
pub(crate) fn push_char(s: &mut String, c: char)
    ensures
        final(s)@ == old(s)@.push(c),
{
    s.push(c)
}

/// The characters `chars[start..end]`, as a string.
pub fn string_of(chars: &Vec<char>, start: usize, end: usize) -> (r: String)
    requires
        start <= end <= chars@.len(),
    ensures
        r@ == chars@.subrange(start as int, end as int),
{
    let mut r = String::new();
    let mut i: usize = start;
    while i < end
        invariant
            start <= i <= end <= chars@.len(),
            r@ == chars@.subrange(start as int, i as int),
        decreases end - i,
    {
        push_char(&mut r, chars[i]);
        assert(chars@.subrange(start as int, i + 1) =~= chars@.subrange(
            start as int,
            i as int,
        ).push(chars@[i as int]));
        i = i + 1;
    }
    r
}

/// The characters of `s`, in order.
pub fn chars_of(s: &str) -> (v: Vec<char>)
    ensures
        v@ == s@,
{
    let mut v: Vec<char> = Vec::new();
    let mut it = s.chars();
    loop
        invariant
            v@ + it.remaining() == s@,
            it.obeys_prophetic_iter_laws(),
        ensures
            v@ == s@,
        decreases s@.len() - v@.len(),
    {
        match it.next() {
            Some(c) => {
                v.push(c);
            },
            None => {
                break ;
            },
        }
    }
    v
}

/// Whether the characters `chars[start..end]` spell `word`.
pub fn slice_is(chars: &Vec<char>, start: usize, end: usize, word: &str) -> (b: bool)
    requires
        start <= end <= chars@.len(),
    ensures
        b == (chars@.subrange(start as int, end as int) == word@),
{
    let ghost part = chars@.subrange(start as int, end as int);
    let mut it = word.chars();
    let mut i: usize = start;
    let ghost mut seen: Seq<char> = Seq::empty();
    loop
        invariant
            start <= i <= end <= chars@.len(),
            seen + it.remaining() == word@,
            it.obeys_prophetic_iter_laws(),
            seen.len() == i - start,
            seen == part.take(i - start),
            part == chars@.subrange(start as int, end as int),
        decreases word@.len() - seen.len(),
    {
        match it.next() {
            Some(c) => {
                if i >= end || chars[i] != c {
                    proof {
                        assert(word@[seen.len() as int] == c);
                        if part == word@ {
                            assert(part[i - start] == chars@[i as int]);
                        }
                    }
                    return false;
                }
                proof {
                    assert(part.take(i - start + 1) =~= seen.push(c));
                    assert(seen.push(c) + it.remaining() =~= word@);
                    seen = seen.push(c);
                }
                i = i + 1;
            },
            None => {
                proof {
                    assert(seen =~= word@);
                    if i == end {
                        assert(part.take(i - start) =~= part);
                    }
                }
                return i == end;
            },
        }
    }
}

/// Whether `a` and `b` hold the same characters.
pub fn str_eq(a: &str, b: &str) -> (r: bool)
    ensures
        r == (a@ == b@),
{
    let mut left = a.chars();
    let mut right = b.chars();
    let ghost mut seen: Seq<char> = Seq::empty();
    loop
        invariant
            seen + left.remaining() == a@,
            seen + right.remaining() == b@,
            left.obeys_prophetic_iter_laws(),
            right.obeys_prophetic_iter_laws(),
        decreases a@.len() - seen.len(),
    {
        let ghost rest_left = left.remaining();
        let ghost rest_right = right.remaining();
        match (left.next(), right.next()) {
            (Some(x), Some(y)) => {
                if x != y {
                    proof {
                        assert(a@[seen.len() as int] == x);
                        assert(b@[seen.len() as int] == y);
                    }
                    return false;
                }
                proof {
                    assert(seen.push(x) + left.remaining() =~= seen + rest_left);
                    assert(seen.push(x) + right.remaining() =~= seen + rest_right);
                    seen = seen.push(x);
                }
            },
            (None, None) => {
                proof {
                    assert(seen + rest_left =~= seen);
                    assert(seen + rest_right =~= seen);
                }
                return true;
            },
            _ => {
                proof {
                    assert(a@.len() == seen.len() + rest_left.len());
                    assert(b@.len() == seen.len() + rest_right.len());
                }
                return false;
            },
        }
    }
}

} // verus!
