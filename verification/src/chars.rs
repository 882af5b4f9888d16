//! Conversions between strings and character vectors, and the character
//! classes that the formatter and the language-server helpers use.

use vstd::prelude::*;

verus! {

/// Collects the characters of `s` into a vector, in order.
pub fn chars_of(s: &str) -> (v: Vec<char>)
    ensures
        v@ == s@,
{
    let mut v: Vec<char> = Vec::new();
    for c in it: s.chars()
        invariant
            v@ == it.seq().take(it.index() as int),
    {
        v.push(c);
    }
    v
}

/// Builds a `String` from a vector of characters.
///
/// Calls `FromIterator<char>` for `String` (`Iterator::collect`); the contract
/// states that the string holds exactly those characters, in order.
#[verifier::external_body]
pub(crate) fn string_from_chars(v: &Vec<char>) -> (s: String)
    ensures
        s@ == v@,
{
    v.iter().collect()
}

/// Whether two string slices hold the same characters.
pub(crate) fn str_eq(a: &str, b: &str) -> (r: bool)
    ensures
        r == (a@ == b@),
{
    let x = chars_of(a);
    let y = chars_of(b);
    if x.len() != y.len() {
        return false;
    }
    let mut i: usize = 0;
    while i < x.len()
        invariant
            x@ == a@,
            y@ == b@,
            x@.len() == y@.len(),
            i <= x@.len(),
            forall|j: int| 0 <= j < i ==> x@[j] == y@[j],
        decreases x.len() - i,
    {
        if x[i] != y[i] {
            return false;
        }
        i += 1;
    }
    assert(x@ =~= y@);
    true
}

/// Calls `char::from_u32`; the contract states what its documentation
/// promises: a character comes back exactly when `v` is a Unicode scalar
/// value (not a surrogate, at most `0x10FFFF`), and it is that value.
#[verifier::external_body]
pub(crate) fn char_from_u32(v: u32) -> (r: Option<char>)
    ensures
        r is Some <==> vstd::utf8::is_scalar(v),
        r matches Some(c) ==> c as u32 == v,
{
    char::from_u32(v)
}

/// Whether `c` is whitespace in the sense of `char::is_whitespace`: it has
/// the Unicode `White_Space` property. In ASCII these are space, tab, line
/// feed, vertical tab, form feed and carriage return; beyond it, U+0085,
/// U+00A0, U+1680, U+2000 to U+200A, U+2028, U+2029, U+202F, U+205F and
/// U+3000.
pub open spec fn is_whitespace_spec(c: char) -> bool {
    let v = c as u32;
    ||| c == ' ' || c == '\t' || c == '\n' || c == '\r' || c == '\u{0B}' || c == '\u{0C}'
    ||| v == 0x85 || v == 0xa0 || v == 0x1680
    ||| 0x2000 <= v <= 0x200a
    ||| v == 0x2028 || v == 0x2029 || v == 0x202f || v == 0x205f || v == 0x3000
}

/// Whether `c` has the `White_Space` property.
pub(crate) fn is_whitespace(c: char) -> (b: bool)
    ensures
        b == is_whitespace_spec(c),
{
    let v = c as u32;
    c == ' ' || c == '\t' || c == '\n' || c == '\r' || c == '\u{0B}' || c == '\u{0C}' || v == 0x85
        || v == 0xa0 || v == 0x1680 || (0x2000 <= v && v <= 0x200a) || v == 0x2028 || v == 0x2029
        || v == 0x202f || v == 0x205f || v == 0x3000
}

/// Whether a character outside ASCII is alphabetic or numeric in the
/// Unicode sense, as `char::is_alphanumeric` decides it.
pub uninterp spec fn unicode_alphanumeric(c: char) -> bool;

/// Whether `c` is alphanumeric in the sense of `char::is_alphanumeric`: an
/// ASCII letter or digit, or beyond ASCII the Unicode property.
pub open spec fn is_alphanumeric_spec(c: char) -> bool {
    if (c as u32) < 128 {
        ('a' <= c && c <= 'z') || ('A' <= c && c <= 'Z') || ('0' <= c && c <= '9')
    } else {
        unicode_alphanumeric(c)
    }
}

/// Calls `char::is_alphanumeric`. For ASCII the contract states that
/// letters and digits are alphanumeric and nothing else is; beyond ASCII it
/// names the result [`unicode_alphanumeric`] and says no more of it.
#[verifier::external_body]
pub(crate) fn is_alphanumeric(c: char) -> (b: bool)
    ensures
        b == is_alphanumeric_spec(c),
        (c as u32) >= 128 ==> b == unicode_alphanumeric(c),
{
    c.is_alphanumeric()
}

/// ASCII letter, digit or underscore: the characters of an identifier.
pub open spec fn is_ident_char(c: char) -> bool {
    ('a' <= c && c <= 'z') || ('A' <= c && c <= 'Z') || ('0' <= c && c <= '9') || c == '_'
}

/// Decides [`is_ident_char`].
pub fn ident_char(c: char) -> (b: bool)
    ensures
        b == is_ident_char(c),
{
    ('a' <= c && c <= 'z') || ('A' <= c && c <= 'Z') || ('0' <= c && c <= '9') || c == '_'
}

/// Whether `c` is an ASCII digit.
pub open spec fn is_digit(c: char) -> bool {
    '0' <= c && c <= '9'
}

/// Whether the characters `s[start..end]` spell `word`.
pub open spec fn spells(s: Seq<char>, start: int, end: int, word: Seq<char>) -> bool {
    &&& 0 <= start <= end <= s.len()
    &&& s.subrange(start, end) == word
}

/// Decides [`spells`] for a word given as a slice.
pub fn word_eq(s: &Vec<char>, start: usize, end: usize, word: &[char]) -> (b: bool)
    requires
        start <= end <= s.len(),
    ensures
        b == spells(s@, start as int, end as int, word@),
        forall|w: Seq<char>| w =~= word@ ==> #[trigger] spells(s@, start as int, end as int, w) == b,
{
    if end - start != word.len() {
        assert(s@.subrange(start as int, end as int).len() != word@.len());
        return false;
    }
    let mut i: usize = 0;
    while i < word.len()
        invariant
            end - start == word.len(),
            start <= end <= s.len(),
            i <= word.len(),
            forall|j: int| 0 <= j < i ==> s@[start + j] == word@[j],
        decreases word.len() - i,
    {
        if s[start + i] != word[i] {
            assert(s@.subrange(start as int, end as int)[i as int] != word@[i as int]);
            return false;
        }
        i += 1;
    }
    assert(s@.subrange(start as int, end as int) =~= word@);
    true
}

/// Whether a character outside ASCII is uppercase in the Unicode sense, as
/// `char::is_uppercase` decides it.
pub uninterp spec fn unicode_uppercase(c: char) -> bool;

/// Whether `c` is uppercase in the sense of `char::is_uppercase`: an ASCII
/// capital letter, or beyond ASCII the Unicode property.
pub open spec fn is_uppercase_spec(c: char) -> bool {
    if (c as u32) < 128 {
        'A' <= c && c <= 'Z'
    } else {
        unicode_uppercase(c)
    }
}

/// Calls `char::is_uppercase`. For ASCII the contract states that exactly
/// the capital letters are uppercase; beyond ASCII it names the result
/// [`unicode_uppercase`] and says no more of it.
#[verifier::external_body]
pub(crate) fn is_uppercase(c: char) -> (b: bool)
    ensures
        b == is_uppercase_spec(c),
        (c as u32) >= 128 ==> b == unicode_uppercase(c),
{
    c.is_uppercase()
}

} // verus!
