use vstd::prelude::*;
use crate::digits::chars_of;

verus! {

/// `String::push` appends one character.
pub assume_specification[ String::push ](text: &mut String, ch: char)
    ensures
        final(text)@ == old(text)@.push(ch),
;

/// The Unicode `White_Space` characters, which `str::trim` removes.
pub open spec fn is_whitespace(c: char) -> bool {
    ('\u{9}' <= c && c <= '\u{d}') || c == ' ' || c == '\u{85}' || c == '\u{a0}' || c == '\u{1680}'
        || ('\u{2000}' <= c && c <= '\u{200a}') || c == '\u{2028}' || c == '\u{2029}' || c
        == '\u{202f}' || c == '\u{205f}' || c == '\u{3000}'
}

fn whitespace(c: char) -> (is: bool)
    ensures
        is == is_whitespace(c),
{
    (c >= '\u{9}' && c <= '\u{d}') || c == ' ' || c == '\u{85}' || c == '\u{a0}' || c == '\u{1680}'
        || (c >= '\u{2000}' && c <= '\u{200a}') || c == '\u{2028}' || c == '\u{2029}' || c
        == '\u{202f}' || c == '\u{205f}' || c == '\u{3000}'
}

/// The text without its leading whitespace.
pub open spec fn trim_start(text: Seq<char>) -> Seq<char>
    decreases text.len(),
{
    if text.len() > 0 && is_whitespace(text[0]) {
        trim_start(text.drop_first())
    } else {
        text
    }
}

/// The text without its trailing whitespace.
pub open spec fn trim_end(text: Seq<char>) -> Seq<char>
    decreases text.len(),
{
    if text.len() > 0 && is_whitespace(text.last()) {
        trim_end(text.drop_last())
    } else {
        text
    }
}

/// The text without leading and trailing whitespace.
pub open spec fn spec_trim(text: Seq<char>) -> Seq<char> {
    trim_end(trim_start(text))
}

/// The characters that trimming removes are Unicode's White_Space: in
/// ASCII exactly tab, line feed, vertical tab, form feed, carriage return
/// and space; beyond ASCII the next-line control, the no-break spaces, the
/// Ogham space mark, the spaces U+2000 to U+200A, the line and paragraph
/// separators, the medium mathematical space and the ideographic space.
/// Letters and digits are never removed.
pub proof fn law_white_space_characters(c: char)
    ensures
        (c as u32) < 0x80 ==> (is_whitespace(c) <==> (c == '\t' || c == '\n' || c == '\u{b}' || c
            == '\u{c}' || c == '\r' || c == ' ')),
        c == '\u{85}' || c == '\u{a0}' || c == '\u{1680}' || ('\u{2000}' <= c && c <= '\u{200a}')
            || c == '\u{2028}' || c == '\u{2029}' || c == '\u{202f}' || c == '\u{205f}' || c
            == '\u{3000}' ==> is_whitespace(c),
        ('a' <= c && c <= 'z') || ('A' <= c && c <= 'Z') || ('0' <= c && c <= '9') ==> !is_whitespace(c),
{
}

proof fn lemma_trim_start_split(text: Seq<char>) -> (lo: int)
    ensures
        0 <= lo <= text.len(),
        trim_start(text) == text.subrange(lo, text.len() as int),
        forall|i: int| 0 <= i < lo ==> is_whitespace(#[trigger] text[i]),
        lo < text.len() ==> !is_whitespace(text[lo]),
    decreases text.len(),
{
    if text.len() > 0 && is_whitespace(text[0]) {
        let rest = lemma_trim_start_split(text.drop_first());
        assert(text.drop_first().subrange(rest, text.drop_first().len() as int) =~= text.subrange(
            rest + 1,
            text.len() as int,
        ));
        assert forall|i: int| 0 <= i < rest + 1 implies is_whitespace(#[trigger] text[i]) by {
            if i > 0 {
                assert(text[i] == text.drop_first()[i - 1]);
            }
        }
        rest + 1
    } else {
        assert(text.subrange(0, text.len() as int) =~= text);
        0
    }
}

proof fn lemma_trim_end_split(text: Seq<char>) -> (hi: int)
    ensures
        0 <= hi <= text.len(),
        trim_end(text) == text.subrange(0, hi),
        forall|i: int| hi <= i < text.len() ==> is_whitespace(#[trigger] text[i]),
        hi > 0 ==> !is_whitespace(text[hi - 1]),
    decreases text.len(),
{
    if text.len() > 0 && is_whitespace(text.last()) {
        let rest = lemma_trim_end_split(text.drop_last());
        assert(text.drop_last().subrange(0, rest) =~= text.subrange(0, rest));
        assert forall|i: int| rest <= i < text.len() implies is_whitespace(#[trigger] text[i]) by {
            if i < text.len() - 1 {
                assert(text[i] == text.drop_last()[i]);
            }
        }
        rest
    } else {
        assert(text.subrange(0, text.len() as int) =~= text);
        text.len() as int
    }
}

/// Trimming keeps one contiguous piece of the text: everything before and
/// after it is White_Space, and the piece neither starts nor ends with
/// White_Space.
pub proof fn law_trim_removes_only_outer_white_space(text: Seq<char>)
    ensures
        exists|lo: int, hi: int|
            {
                &&& 0 <= lo <= hi <= text.len()
                &&& spec_trim(text) == text.subrange(lo, hi)
                &&& forall|i: int| 0 <= i < lo ==> is_whitespace(#[trigger] text[i])
                &&& forall|i: int| hi <= i < text.len() ==> is_whitespace(#[trigger] text[i])
                &&& lo < hi ==> !is_whitespace(text[lo]) && !is_whitespace(text[hi - 1])
            },
{
    let lo = lemma_trim_start_split(text);
    let start = text.subrange(lo, text.len() as int);
    let hi = lemma_trim_end_split(start);
    assert(start.subrange(0, hi) =~= text.subrange(lo, lo + hi));
    assert forall|i: int| lo + hi <= i < text.len() implies is_whitespace(#[trigger] text[i]) by {
        assert(text[i] == start[i - lo]);
    }
    if hi > 0 {
        assert(text[lo] == start[0]);
        assert(text[lo + hi - 1] == start[hi - 1]);
    }
    assert(0 <= lo <= lo + hi <= text.len());
}

/// `text` without leading and trailing whitespace, borrowed from `text`.
pub fn trim(text: &str) -> (trimmed: &str)
    ensures
        trimmed@ == spec_trim(text@),
{
    let chars = chars_of(text);
    let len = chars.len();
    let mut lo: usize = 0;
    assert(chars@.subrange(0, len as int) =~= chars@);
    while lo < len && whitespace(chars[lo])
        invariant
            lo <= len == chars@.len(),
            trim_start(chars@) == trim_start(chars@.subrange(lo as int, len as int)),
        decreases len - lo,
    {
        assert(chars@.subrange(lo as int, len as int).drop_first() =~= chars@.subrange(
            lo + 1,
            len as int,
        ));
        lo = lo + 1;
    }
    let ghost start = chars@.subrange(lo as int, len as int);
    assert(trim_start(chars@) == start);
    let mut hi: usize = len;
    assert(start.subrange(0, (hi - lo) as int) =~= start);
    while hi > lo && whitespace(chars[hi - 1])
        invariant
            lo <= hi <= len == chars@.len(),
            start == chars@.subrange(lo as int, len as int),
            trim_end(start) == trim_end(chars@.subrange(lo as int, hi as int)),
        decreases hi - lo,
    {
        assert(chars@.subrange(lo as int, hi as int).drop_last() =~= chars@.subrange(
            lo as int,
            hi - 1,
        ));
        hi = hi - 1;
    }
    text.substring_char(lo, hi)
}

/// An ASCII uppercase letter lowered; any other character unchanged.
pub open spec fn ascii_lower(c: char) -> char {
    if 'A' <= c && c <= 'Z' {
        ((c as u32) + 32) as char
    } else {
        c
    }
}

/// Whether `c` is one of `A` through `Z`.
pub open spec fn is_ascii_uppercase(c: char) -> bool {
    'A' <= c && c <= 'Z'
}

/// The text with ASCII uppercase letters lowered and everything else kept.
pub open spec fn spec_ascii_lowercase(text: Seq<char>) -> Seq<char> {
    text.map_values(|c: char| ascii_lower(c))
}

/// A copy of `text` with ASCII uppercase letters lowered.
pub fn to_ascii_lowercase(text: &str) -> (lowered: String)
    ensures
        lowered@ == spec_ascii_lowercase(text@),
{
    let chars = chars_of(text);
    let mut lowered = String::new();
    let mut i: usize = 0;
    while i < chars.len()
        invariant
            i <= chars@.len(),
            chars@ == text@,
            lowered@ == spec_ascii_lowercase(chars@.take(i as int)),
        decreases chars@.len() - i,
    {
        let c = chars[i];
        let lower = if c >= 'A' && c <= 'Z' {
            ((c as u8) + 32) as char
        } else {
            c
        };
        assert(lower == ascii_lower(c));
        lowered.push(lower);
        i = i + 1;
        assert(spec_ascii_lowercase(chars@.take(i as int)) =~= spec_ascii_lowercase(
            chars@.take(i - 1),
        ).push(lower));
    }
    assert(chars@.take(i as int) =~= chars@);
    lowered
}

/// Either the original text, when nothing changed, or a new lowered copy.
#[derive(Debug, PartialEq, Eq)]
pub enum Lowercased<'a> {
    Borrowed(&'a str),
    Owned(String),
}

impl<'a> Lowercased<'a> {
    /// The text, whichever way it is held.
    pub fn as_str(&self) -> (text: &str)
        ensures
            text@ == match self {
                Lowercased::Borrowed(t) => t@,
                Lowercased::Owned(s) => s@,
            },
    {
        match self {
            Lowercased::Borrowed(t) => t,
            Lowercased::Owned(s) => s.as_str(),
        }
    }
}

/// Lowers ASCII uppercase letters, borrowing `input` when it has none.
pub fn ascii_lowercase(input: &str) -> (lowered: Lowercased<'_>)
    ensures
        match lowered {
            Lowercased::Borrowed(t) => t@ == input@ && forall|i: int|
                0 <= i < input@.len() ==> !is_ascii_uppercase(#[trigger] input@[i]),
            Lowercased::Owned(s) => s@ == spec_ascii_lowercase(input@) && exists|i: int|
                0 <= i < input@.len() && is_ascii_uppercase(#[trigger] input@[i]),
        },
{
    let chars = chars_of(input);
    let mut i: usize = 0;
    while i < chars.len()
        invariant
            i <= chars@.len(),
            chars@ == input@,
            forall|j: int| 0 <= j < i ==> !is_ascii_uppercase(#[trigger] input@[j]),
        decreases chars@.len() - i,
    {
        let c = chars[i];
        if c >= 'A' && c <= 'Z' {
            assert(is_ascii_uppercase(input@[i as int]));
            return Lowercased::Owned(to_ascii_lowercase(input));
        }
        i = i + 1;
    }
    Lowercased::Borrowed(input)
}

/// A label's normalized form: trimmed, then with ASCII letters lowered.
pub fn normalize_label(raw: &str) -> (normalized: String)
    ensures
        normalized@ == spec_ascii_lowercase(spec_trim(raw@)),
{
    to_ascii_lowercase(trim(raw))
}

} // verus!
