//! Text helpers over byte offsets into a document: finding a name inside a
//! span, the word before the cursor, module paths being typed, and the
//! declared type inside a span.
//!
//! Offsets are byte offsets into the UTF-8 encoding of the source, as the
//! client's positions are converted to; contracts speak of the bytes
//! (`spec_bytes`) and of the characters they decode to.

use vstd::prelude::*;
use vstd::string::StringSliceAdditionalSpecFns;
use vstd::utf8::*;

use crate::chars::{chars_of, is_alphanumeric, is_alphanumeric_spec, is_whitespace, is_whitespace_spec, string_from_chars};
use crate::formatter::normalize::{trim_end, trim_end_in_place};
use crate::lsp::position::{clamp, position_at, position_spec, LineIndex, Range};

verus! {

broadcast use vstd::utf8::group_utf8_lib;

/// The characters that the bytes `b[start..end]` decode to.
pub open spec fn text_between(b: Seq<u8>, start: int, end: int) -> Seq<char> {
    decode_utf8(b.subrange(start, end))
}

/// The part of `source` between two character boundaries.
pub fn slice_str(source: &str, start: usize, end: usize) -> (r: &str)
    requires
        start <= end,
        is_char_boundary(source.spec_bytes(), start as int),
        is_char_boundary(source.spec_bytes(), end as int),
    ensures
        r.spec_bytes() == source.spec_bytes().subrange(start as int, end as int),
        r@ == text_between(source.spec_bytes(), start as int, end as int),
{
    let ghost b = source.spec_bytes();
    proof {
        encode_utf8_valid_utf8(source@);
    }
    let (_, rest) = source.split_at(start);
    let ghost rb = rest.spec_bytes();
    assert(rb == b.subrange(start as int, b.len() as int));
    proof {
        encode_utf8_valid_utf8(rest@);
        let k = (end - start) as int;
        if k < rb.len() {
            is_char_boundary_iff_not_is_continuation_byte(b, end as int);
            is_char_boundary_iff_not_is_continuation_byte(rb, k);
            assert(rb[k] == b[end as int]);
        } else {
            is_char_boundary_start_end_of_seq(rb);
        }
    }
    let (mid, _) = rest.split_at(end - start);
    assert(mid.spec_bytes() =~= b.subrange(start as int, end as int));
    proof {
        encode_utf8_decode_utf8(mid@);
    }
    mid
}

/// Index of the first `c` in `s`.
pub open spec fn first_index(s: Seq<char>, c: char) -> Option<int> {
    if exists|i: int| 0 <= i < s.len() && s[i] == c {
        Some(choose|i: int| 0 <= i < s.len() && s[i] == c && forall|j: int| 0 <= j < i ==> s[j] != c)
    } else {
        None
    }
}

/// Finds [`first_index`].
fn find_char(s: &Vec<char>, c: char) -> (r: Option<usize>)
    ensures
        r matches Some(i) ==> i < s@.len() && first_index(s@, c) == Some(i as int),
        r is None ==> first_index(s@, c) is None,
{
    let mut i: usize = 0;
    while i < s.len()
        invariant
            i <= s@.len(),
            forall|j: int| 0 <= j < i ==> s@[j] != c,
        decreases s.len() - i,
    {
        if s[i] == c {
            proof {
                let k = choose|k: int| 0 <= k < s@.len() && s@[k] == c && forall|j: int| 0 <= j < k ==> s@[j] != c;
                assert(k == i) by {
                    if k < i {
                        assert(s@[k] != c);
                    } else if k > i {
                        assert(s@[i as int] != c);
                    }
                }
            }
            return Some(i);
        }
        i += 1;
    }
    None
}

/// `s` without its leading whitespace.
pub open spec fn trim_start(s: Seq<char>) -> Seq<char>
    decreases s.len(),
{
    if s.len() > 0 && is_whitespace_spec(s[0]) {
        trim_start(s.drop_first())
    } else {
        s
    }
}

/// `s` without leading and trailing whitespace, as `str::trim` gives it.
pub open spec fn trim(s: Seq<char>) -> Seq<char> {
    trim_end(trim_start(s))
}

/// The characters `s[start..end]`.
pub fn copy_range(s: &Vec<char>, start: usize, end: usize) -> (r: Vec<char>)
    requires
        start <= end <= s@.len(),
    ensures
        r@ == s@.subrange(start as int, end as int),
{
    let mut out: Vec<char> = Vec::new();
    let mut i: usize = start;
    while i < end
        invariant
            start <= i <= end,
            end <= s@.len(),
            out@ == s@.subrange(start as int, i as int),
        decreases end - i,
    {
        out.push(s[i]);
        i += 1;
        assert(out@ =~= s@.subrange(start as int, i as int));
    }
    out
}

/// Computes [`trim`].
pub fn trim_chars(s: &Vec<char>) -> (r: Vec<char>)
    ensures
        r@ == trim(s@),
{
    let mut i: usize = 0;
    assert(s@.skip(0) =~= s@);
    while i < s.len() && is_whitespace(s[i])
        invariant
            i <= s@.len(),
            trim_start(s@) == trim_start(s@.skip(i as int)),
        decreases s.len() - i,
    {
        assert(s@.skip(i as int).drop_first() =~= s@.skip(i + 1));
        i += 1;
    }
    assert(s@.skip(i as int) =~= s@.subrange(i as int, s@.len() as int));
    let mut out = copy_range(s, i, s.len());
    trim_end_in_place(&mut out);
    out
}

/// The declared type inside a piece of text: what follows the first `:`,
/// up to the first `=` after it for a `let`, else up to the next `:`,
/// without surrounding whitespace. `None` without a `:`.
pub open spec fn type_in_text(text: Seq<char>, is_let: bool) -> Option<Seq<char>> {
    match first_index(text, ':') {
        None => None,
        Some(c) => {
            let after = text.skip(c + 1);
            let stop = match first_index(after, if is_let { '=' } else { ':' }) {
                Some(i) => i,
                None => after.len() as int,
            };
            Some(trim(after.take(stop)))
        },
    }
}

/// The type that the span `offset..offset + length` of the source (its
/// bytes `b`) declares, if the span is still valid and holds a nonempty one.
pub open spec fn extract_type_spec(b: Seq<u8>, offset: int, length: int, is_let: bool) -> Option<Seq<char>> {
    let end = offset + length;
    if end > usize::MAX || !is_char_boundary(b, offset) || !is_char_boundary(b, end) {
        None
    } else {
        match type_in_text(text_between(b, offset, end), is_let) {
            Some(t) => if t.len() == 0 {
                None
            } else {
                Some(t)
            },
            None => None,
        }
    }
}

/// The text of an optional string.
pub open spec fn opt_chars(r: Option<String>) -> Option<Seq<char>> {
    match r {
        Some(s) => Some(s@),
        None => None,
    }
}

/// Reads the type annotation inside the span `offset..offset + length` of
/// `source`: after the first `:`, up to `=` for a `let` binding, else up to
/// the next `:`. `None` when the span runs past the text or cuts a
/// character, or when no nonempty type is there.
pub fn extract_type_from_span(source: &str, offset: usize, length: usize, is_let: bool) -> (r: Option<String>)
    ensures
        opt_chars(r) == extract_type_spec(source.spec_bytes(), offset as int, length as int, is_let),
{
    let end = match offset.checked_add(length) {
        Some(e) => e,
        None => return None,
    };
    if !source.is_char_boundary(offset) || !source.is_char_boundary(end) {
        return None;
    }
    let text = chars_of(slice_str(source, offset, end));
    let colon = match find_char(&text, ':') {
        Some(c) => c,
        None => return None,
    };
    let after = copy_range(&text, colon + 1, text.len());
    assert(after@ =~= text@.skip(colon + 1));
    let stop = match find_char(&after, if is_let { '=' } else { ':' }) {
        Some(i) => i,
        None => after.len(),
    };
    let piece = copy_range(&after, 0, stop);
    assert(piece@ =~= after@.take(stop as int));
    let type_text = trim_chars(&piece);
    if type_text.len() == 0 {
        None
    } else {
        Some(string_from_chars(&type_text))
    }
}

/// An ASCII letter, digit or underscore byte.
pub open spec fn is_ident_byte(b: u8) -> bool {
    (0x30 <= b <= 0x39) || (0x41 <= b <= 0x5a) || (0x61 <= b <= 0x7a) || b == 0x5f
}

/// Decides [`is_ident_byte`].
pub fn ident_byte(b: u8) -> (r: bool)
    ensures
        r == is_ident_byte(b),
{
    (0x30 <= b && b <= 0x39) || (0x41 <= b && b <= 0x5a) || (0x61 <= b && b <= 0x7a) || b == 0x5f
}

/// `n` occurs in `t` at byte `i`.
pub open spec fn matches_at(t: Seq<u8>, n: Seq<u8>, i: int) -> bool {
    0 <= i && i + n.len() <= t.len() && t.subrange(i, i + n.len()) == n
}

/// The bytes around position `i` (and `i + n.len()`) are not identifier
/// bytes, where there are any.
pub open spec fn standalone_at(t: Seq<u8>, n: Seq<u8>, i: int) -> bool {
    &&& (i == 0 || !is_ident_byte(t[i - 1]))
    &&& (i + n.len() >= t.len() || !is_ident_byte(t[i + n.len()]))
}

/// The first occurrence of `n` in `t` at or after `p`.
pub open spec fn next_match(t: Seq<u8>, n: Seq<u8>, p: int) -> Option<int>
    decreases t.len() + 1 - p,
{
    if p < 0 || p + n.len() > t.len() {
        None
    } else if matches_at(t, n, p) {
        Some(p)
    } else {
        next_match(t, n, p + 1)
    }
}

/// An occurrence found from `p` on is one, at or after `p`.
pub proof fn lemma_next_match(t: Seq<u8>, n: Seq<u8>, p: int)
    ensures
        next_match(t, n, p) matches Some(i) ==> p <= i && i + n.len() <= t.len() && matches_at(t, n, i),
    decreases t.len() + 1 - p,
{
    if 0 <= p && p + n.len() <= t.len() && !matches_at(t, n, p) {
        lemma_next_match(t, n, p + 1);
    }
}

/// Walks the occurrences of a nonempty `n` in `t` from `p` on, left to right
/// and without overlap, and gives the first that stands alone.
pub open spec fn standalone_from(t: Seq<u8>, n: Seq<u8>, p: int) -> Option<int>
    decreases t.len() + 1 - p,
{
    if n.len() == 0 || p < 0 || p > t.len() {
        None
    } else {
        match next_match(t, n, p) {
            None => None,
            Some(i) => if standalone_at(t, n, i) {
                Some(i)
            } else {
                proof {
                    lemma_next_match(t, n, p);
                }
                standalone_from(t, n, i + n.len())
            },
        }
    }
}

/// The first character boundary of `t` at or after `i` with no identifier
/// byte on either side: where an empty name stands alone.
pub open spec fn empty_from(t: Seq<u8>, i: int) -> Option<int>
    decreases t.len() + 1 - i,
{
    if i < 0 || i > t.len() {
        None
    } else if is_char_boundary(t, i) && standalone_at(t, Seq::<u8>::empty(), i) {
        Some(i)
    } else {
        empty_from(t, i + 1)
    }
}

/// Byte offset of the first occurrence of `n` in `t` that is a whole
/// identifier: not preceded or followed by an ASCII letter, digit or
/// underscore.
pub open spec fn find_identifier_spec(t: Seq<u8>, n: Seq<u8>) -> Option<int> {
    if n.len() == 0 {
        empty_from(t, 0)
    } else {
        standalone_from(t, n, 0)
    }
}

/// Decides [`matches_at`].
fn bytes_match_at(t: &[u8], n: &[u8], i: usize) -> (r: bool)
    ensures
        r == matches_at(t@, n@, i as int),
{
    if i > t.len() || n.len() > t.len() - i {
        return false;
    }
    let mut k: usize = 0;
    while k < n.len()
        invariant
            i + n@.len() <= t@.len(),
            t@.len() == t.len(),
            k <= n@.len(),
            forall|m: int| 0 <= m < k ==> t@[i + m] == n@[m],
        decreases n.len() - k,
    {
        if t[i + k] != n[k] {
            assert(t@.subrange(i as int, i + n@.len())[k as int] != n@[k as int]);
            return false;
        }
        k += 1;
    }
    assert(t@.subrange(i as int, i + n@.len()) =~= n@);
    true
}

/// Decides [`standalone_at`].
fn standalone(t: &[u8], n_len: usize, i: usize) -> (r: bool)
    requires
        i <= t@.len(),
    ensures
        forall|n: Seq<u8>| n.len() == n_len ==> (r == #[trigger] standalone_at(t@, n, i as int)),
{
    let before_ok = i == 0 || !ident_byte(t[i - 1]);
    let after_ok = n_len >= t.len() - i || !ident_byte(t[i + n_len]);
    before_ok && after_ok
}

/// Finds the first whole-identifier occurrence of `name` in `text`, as a
/// byte offset.
pub fn find_identifier(text: &str, name: &str) -> (r: Option<usize>)
    ensures
        match r {
            Some(i) => find_identifier_spec(text.spec_bytes(), name.spec_bytes()) == Some(i as int),
            None => find_identifier_spec(text.spec_bytes(), name.spec_bytes()) is None,
        },
{
    let t = text.as_bytes();
    let n = name.as_bytes();
    let ghost tb = t@;
    let ghost nb = n@;
    if n.len() == 0 {
        let mut i: usize = 0;
        while i <= t.len()
            invariant
                i <= tb.len(),
                tb == t@,
                tb == text.spec_bytes(),
                nb == name.spec_bytes(),
                nb.len() == 0,
                empty_from(tb, 0) == empty_from(tb, i as int),
            decreases t.len() + 1 - i,
        {
            let ok = standalone(t, 0, i);
            assert(ok == standalone_at(tb, Seq::<u8>::empty(), i as int));
            if text.is_char_boundary(i) && ok {
                return Some(i);
            }
            if i == t.len() {
                assert(empty_from(tb, i + 1) is None);
                return None;
            }
            i += 1;
        }
        return None;
    }
    let mut p: usize = 0;
    let mut i: usize = 0;
    loop
        invariant
            p <= i <= tb.len(),
            tb == t@,
            nb == n@,
            tb == text.spec_bytes(),
            nb == name.spec_bytes(),
            nb.len() > 0,
            find_identifier_spec(tb, nb) == standalone_from(tb, nb, p as int),
            next_match(tb, nb, p as int) == next_match(tb, nb, i as int),
        decreases tb.len() + 1 - i,
    {
        if n.len() > t.len() - i {
            return None;
        }
        if bytes_match_at(t, n, i) {
            if standalone(t, n.len(), i) {
                return Some(i);
            }
            p = i + n.len();
            i = p;
        } else {
            i += 1;
        }
    }
}

/// Where a whole-identifier `name` occurs inside the byte span
/// `start..end` of the source with bytes `b`.
pub open spec fn name_span_spec(b: Seq<u8>, start: int, end: int, n: Seq<u8>) -> Option<(int, int)> {
    if start <= end && is_char_boundary(b, start) && is_char_boundary(b, end) {
        match find_identifier_spec(b.subrange(start, end), n) {
            Some(rel) => Some((start + rel, start + rel + n.len())),
            None => None,
        }
    } else {
        None
    }
}

/// The byte span of `name` inside `span` of `source`, when the span is a
/// valid piece of the text and holds it as a whole identifier.
pub fn name_span(source: &str, span: (usize, usize), name: &str) -> (r: Option<(usize, usize)>)
    ensures
        match r {
            Some((s, e)) => name_span_spec(source.spec_bytes(), span.0 as int, span.1 as int, name.spec_bytes()) == Some((s as int, e as int)),
            None => name_span_spec(source.spec_bytes(), span.0 as int, span.1 as int, name.spec_bytes()) is None,
        },
{
    let (start, end) = span;
    if start > end || !source.is_char_boundary(start) || !source.is_char_boundary(end) {
        return None;
    }
    let text = slice_str(source, start, end);
    match find_identifier(text, name) {
        Some(relative) => {
            proof {
                lemma_find_identifier_in_bounds(text.spec_bytes(), name.spec_bytes());
            }
            assert(end <= source.spec_bytes().len()) by {
                encode_utf8_valid_utf8(source@);
            }
            Some((start + relative, start + relative + name.len()))
        },
        None => None,
    }
}

/// A found identifier lies within the text.
proof fn lemma_find_identifier_in_bounds(t: Seq<u8>, n: Seq<u8>)
    ensures
        find_identifier_spec(t, n) matches Some(i) ==> 0 <= i && i + n.len() <= t.len(),
{
    if n.len() > 0 {
        lemma_standalone_from_in_bounds(t, n, 0);
    } else {
        lemma_empty_from_in_bounds(t, 0);
    }
}

/// A standalone occurrence found from `p` on lies within the text.
proof fn lemma_standalone_from_in_bounds(t: Seq<u8>, n: Seq<u8>, p: int)
    ensures
        standalone_from(t, n, p) matches Some(i) ==> 0 <= i && i + n.len() <= t.len(),
    decreases t.len() + 1 - p,
{
    if n.len() > 0 && 0 <= p <= t.len() {
        lemma_next_match(t, n, p);
        if let Some(i) = next_match(t, n, p) {
            if !standalone_at(t, n, i) {
                lemma_standalone_from_in_bounds(t, n, i + n.len());
            }
        }
    }
}

/// An empty name found from `i` on stands within the text.
proof fn lemma_empty_from_in_bounds(t: Seq<u8>, i: int)
    ensures
        empty_from(t, i) matches Some(j) ==> 0 <= j <= t.len(),
    decreases t.len() + 1 - i,
{
    if 0 <= i <= t.len() {
        lemma_empty_from_in_bounds(t, i + 1);
    }
}

/// The span of `name` inside `span`, or the whole span when it is not there.
pub fn name_range(source: &str, span: (usize, usize), name: &str) -> (r: (usize, usize))
    ensures
        match name_span_spec(source.spec_bytes(), span.0 as int, span.1 as int, name.spec_bytes()) {
            Some((s, e)) => r.0 == s && r.1 == e,
            None => r == span,
        },
{
    match name_span(source, span, name) {
        Some(r) => r,
        None => span,
    }
}

/// A character that may continue a word: alphanumeric or `_`.
pub open spec fn is_word_char(c: char) -> bool {
    is_alphanumeric_spec(c) || c == '_'
}

/// Decides [`is_word_char`].
fn word_char(c: char) -> (r: bool)
    ensures
        r == is_word_char(c),
{
    c == '_' || is_alphanumeric(c)
}

/// Where the run of word characters that ends `s` begins.
pub open spec fn word_start(s: Seq<char>) -> int
    decreases s.len(),
{
    if s.len() > 0 && is_word_char(s.last()) {
        word_start(s.drop_last())
    } else {
        s.len() as int
    }
}

/// The run of word characters that ends `s`.
pub open spec fn word_suffix(s: Seq<char>) -> Seq<char> {
    s.skip(word_start(s))
}

/// [`word_start`] lies within the sequence.
pub proof fn lemma_word_start_bounds(s: Seq<char>)
    ensures
        0 <= word_start(s) <= s.len(),
        word_start(s) > 0 ==> !is_word_char(s[word_start(s) - 1]),
    decreases s.len(),
{
    if s.len() > 0 && is_word_char(s.last()) {
        lemma_word_start_bounds(s.drop_last());
        if word_start(s) > 0 {
            assert(s.drop_last()[word_start(s) - 1] == s[word_start(s) - 1]);
        }
    }
}

/// Computes [`word_start`].
pub fn find_word_start(s: &Vec<char>) -> (r: usize)
    ensures
        r == word_start(s@),
{
    let mut j: usize = s.len();
    assert(s@.take(j as int) =~= s@);
    while j > 0 && word_char(s[j - 1])
        invariant
            j <= s@.len(),
            word_start(s@) == word_start(s@.take(j as int)),
        decreases j,
    {
        assert(s@.take(j as int).drop_last() =~= s@.take(j - 1));
        j -= 1;
    }
    j
}

/// An offset clamped to the length of the text.
pub open spec fn clamp_offset(b: Seq<u8>, offset: int) -> int {
    if offset < b.len() {
        offset
    } else {
        b.len() as int
    }
}

/// The word being typed before `offset` (clamped to the text): the run of
/// alphanumeric characters and underscores that ends there.
pub fn word_prefix(source: &str, offset: usize) -> (r: String)
    requires
        is_char_boundary(source.spec_bytes(), clamp_offset(source.spec_bytes(), offset as int)),
    ensures
        r@ == word_suffix(text_between(source.spec_bytes(), 0, clamp_offset(source.spec_bytes(), offset as int))),
{
    let bytes = source.as_bytes();
    let m = if offset < bytes.len() { offset } else { bytes.len() };
    proof {
        encode_utf8_valid_utf8(source@);
        is_char_boundary_start_end_of_seq(source.spec_bytes());
    }
    let before = chars_of(slice_str(source, 0, m));
    let start = find_word_start(&before);
    proof {
        lemma_word_start_bounds(before@);
    }
    let word = copy_range(&before, start, before.len());
    assert(word@ =~= word_suffix(before@));
    string_from_chars(&word)
}

/// The word right before a single `:` that ends at `offset` (clamped), as
/// in `name:` while a field is being typed. `None` without such a colon,
/// after `::`, or when no word precedes it.
pub open spec fn word_before_colon_spec(b: Seq<u8>, offset: int) -> Option<Seq<char>> {
    let m = clamp_offset(b, offset);
    if m == 0 || b[m - 1] != 0x3a || (m >= 2 && b[m - 2] == 0x3a) {
        None
    } else {
        let w = word_suffix(text_between(b, 0, m - 1));
        if w.len() == 0 {
            None
        } else {
            Some(w)
        }
    }
}

/// The inputs on which looking for the word before a colon slices the text
/// only at character boundaries: `offset` (clamped) is one, and the
/// character before the word, if the word is looked for, is a single byte.
pub open spec fn word_before_colon_ok(b: Seq<u8>, offset: int) -> bool {
    let m = clamp_offset(b, offset);
    m == 0 || {
        &&& is_char_boundary(b, m)
        &&& (b[m - 1] == 0x3a && !(m >= 2 && b[m - 2] == 0x3a)) ==> {
            let cs = text_between(b, 0, m - 1);
            word_start(cs) == 0 || (cs[word_start(cs) - 1] as u32) < 0x80
        }
    }
}

/// A byte below `0x80` in valid UTF-8 starts a character.
pub proof fn lemma_ascii_byte_boundary(b: Seq<u8>, i: int)
    requires
        valid_utf8(b),
        0 <= i < b.len(),
        b[i] < 0x80,
    ensures
        is_char_boundary(b, i),
{
    is_char_boundary_iff_is_leading_byte(b, i);
}

/// The word before a single `:` ending at `offset`; see
/// [`word_before_colon_spec`].
pub fn word_before_colon(source: &str, offset: usize) -> (r: Option<String>)
    requires
        word_before_colon_ok(source.spec_bytes(), offset as int),
    ensures
        opt_chars(r) == word_before_colon_spec(source.spec_bytes(), offset as int),
{
    let bytes = source.as_bytes();
    let m = if offset < bytes.len() { offset } else { bytes.len() };
    if m == 0 {
        return None;
    }
    if bytes[m - 1] != 0x3a {
        return None;
    }
    if m >= 2 && bytes[m - 2] == 0x3a {
        return None;
    }
    proof {
        encode_utf8_valid_utf8(source@);
        lemma_ascii_byte_boundary(source.spec_bytes(), m - 1);
    }
    let before = chars_of(slice_str(source, 0, m - 1));
    let start = find_word_start(&before);
    proof {
        lemma_word_start_bounds(before@);
    }
    let word = copy_range(&before, start, before.len());
    assert(word@ =~= word_suffix(before@));
    if word.len() == 0 {
        None
    } else {
        Some(string_from_chars(&word))
    }
}

/// Start of the last `::` that ends within `s[0..n]`.
pub open spec fn last_double_colon_in(s: Seq<char>, n: int) -> Option<int>
    decreases if n > 0 { n } else { 0 },
{
    if n < 2 || n > s.len() {
        None
    } else if s[n - 2] == ':' && s[n - 1] == ':' {
        Some(n - 2)
    } else {
        last_double_colon_in(s, n - 1)
    }
}

/// Start of the last `::` in `s`.
pub open spec fn last_double_colon(s: Seq<char>) -> Option<int> {
    last_double_colon_in(s, s.len() as int)
}

/// Finds [`last_double_colon`].
fn find_last_double_colon(s: &Vec<char>) -> (r: Option<usize>)
    ensures
        match r {
            Some(k) => last_double_colon(s@) == Some(k as int) && k + 2 <= s@.len(),
            None => last_double_colon(s@) is None,
        },
{
    let mut n: usize = s.len();
    while n >= 2
        invariant
            n <= s@.len(),
            last_double_colon(s@) == last_double_colon_in(s@, n as int),
        decreases n,
    {
        if s[n - 2] == ':' && s[n - 1] == ':' {
            return Some(n - 2);
        }
        n -= 1;
    }
    None
}

/// `s` without the characters at its end that cannot be part of a word.
pub open spec fn strip_nonword_end(s: Seq<char>) -> Seq<char>
    decreases s.len(),
{
    if s.len() > 0 && !is_word_char(s.last()) {
        strip_nonword_end(s.drop_last())
    } else {
        s
    }
}

/// The last two words of `s`, last first; empty where there are fewer.
pub open spec fn last_two_words(s: Seq<char>) -> (Seq<char>, Seq<char>) {
    let t1 = strip_nonword_end(s);
    let t2 = strip_nonword_end(t1.take(word_start(t1)));
    (word_suffix(t1), word_suffix(t2))
}

/// `parent`, `self` or `package`: a word that qualifies a path by scope.
pub open spec fn is_scope_word(w: Seq<char>) -> bool {
    w == seq!['p', 'a', 'r', 'e', 'n', 't'] || w == seq!['s', 'e', 'l', 'f'] || w == seq![
        'p',
        'a',
        'c',
        'k',
        'a',
        'g',
        'e',
    ]
}

/// Decides [`is_scope_word`].
fn scope_word(w: &Vec<char>) -> (r: bool)
    ensures
        r == is_scope_word(w@),
{
    let parent = ['p', 'a', 'r', 'e', 'n', 't'];
    let self_word = ['s', 'e', 'l', 'f'];
    let package = ['p', 'a', 'c', 'k', 'a', 'g', 'e'];
    let a = crate::chars::word_eq(w, 0, w.len(), parent.as_slice());
    let b = crate::chars::word_eq(w, 0, w.len(), self_word.as_slice());
    let c = crate::chars::word_eq(w, 0, w.len(), package.as_slice());
    assert(w@.subrange(0, w@.len() as int) =~= w@);
    assert(parent@ =~= seq!['p', 'a', 'r', 'e', 'n', 't']);
    assert(self_word@ =~= seq!['s', 'e', 'l', 'f']);
    assert(package@ =~= seq!['p', 'a', 'c', 'k', 'a', 'g', 'e']);
    a || b || c
}

/// Length of [`strip_nonword_end`] of `s[0..n]`.
pub fn strip_nonword_len(s: &Vec<char>, n: usize) -> (r: usize)
    requires
        n <= s@.len(),
    ensures
        r <= n,
        s@.take(r as int) == strip_nonword_end(s@.take(n as int)),
{
    let mut j = n;
    while j > 0 && !word_char(s[j - 1])
        invariant
            j <= n <= s@.len(),
            strip_nonword_end(s@.take(n as int)) == strip_nonword_end(s@.take(j as int)),
        decreases j,
    {
        assert(s@.take(j as int).drop_last() =~= s@.take(j - 1));
        j -= 1;
    }
    j
}

/// Whether the last `::` of a line follows a path that starts at
/// `parent`, `self` or `package`: one of the last two words before it is
/// such a word.
pub open spec fn scope_qualified_spec(line: Seq<char>) -> bool {
    match last_double_colon(line) {
        None => false,
        Some(k) => {
            let (w1, w2) = last_two_words(line.take(k));
            is_scope_word(w1) || is_scope_word(w2)
        },
    }
}

/// Decides [`scope_qualified_spec`].
pub fn is_scope_qualified(line: &str) -> (r: bool)
    ensures
        r == scope_qualified_spec(line@),
{
    let cs = chars_of(line);
    let k = match find_last_double_colon(&cs) {
        Some(k) => k,
        None => return false,
    };
    let ghost pre = cs@.take(k as int);
    let e1 = strip_nonword_len(&cs, k);
    assert(cs@.take(k as int).take(e1 as int) =~= cs@.take(e1 as int));
    let t1 = copy_range(&cs, 0, e1);
    assert(t1@ =~= cs@.take(e1 as int));
    let s1 = find_word_start(&t1);
    proof {
        lemma_word_start_bounds(t1@);
    }
    let w1 = copy_range(&t1, s1, t1.len());
    assert(w1@ =~= word_suffix(t1@));
    let e2 = strip_nonword_len(&cs, s1);
    assert(t1@.take(s1 as int) =~= cs@.take(s1 as int));
    let t2 = copy_range(&cs, 0, e2);
    assert(t2@ =~= cs@.take(e2 as int));
    let s2 = find_word_start(&t2);
    proof {
        lemma_word_start_bounds(t2@);
    }
    let w2 = copy_range(&t2, s2, t2.len());
    assert(w2@ =~= word_suffix(t2@));
    scope_word(&w1) || scope_word(&w2)
}

/// Index of the last `c` in `s[0..n]`.
pub open spec fn last_index_in(s: Seq<char>, c: char, n: int) -> Option<int>
    decreases if n > 0 { n } else { 0 },
{
    if n <= 0 || n > s.len() {
        None
    } else if s[n - 1] == c {
        Some(n - 1)
    } else {
        last_index_in(s, c, n - 1)
    }
}

/// Where the last line of `p` starts: after its last line feed.
pub open spec fn line_start(p: Seq<char>) -> int {
    match last_index_in(p, '\n', p.len() as int) {
        Some(i) => i + 1,
        None => 0,
    }
}

/// Computes [`line_start`].
pub fn find_line_start(p: &Vec<char>) -> (r: usize)
    ensures
        r == line_start(p@),
        r <= p@.len(),
{
    let mut n: usize = p.len();
    while n > 0
        invariant
            n <= p@.len(),
            last_index_in(p@, '\n', p@.len() as int) == last_index_in(p@, '\n', n as int),
        decreases n,
    {
        if p[n - 1] == '\n' {
            return n;
        }
        n -= 1;
    }
    0
}

/// The first index from `i` on of a character that cannot be part of a
/// word, else the length.
pub open spec fn word_end_from(s: Seq<char>, i: int) -> int
    decreases s.len() - i,
{
    if i < 0 || i >= s.len() {
        s.len() as int
    } else if !is_word_char(s[i]) {
        i
    } else {
        word_end_from(s, i + 1)
    }
}

/// The `module::symbol` being typed in a line at character `r`: the `::`
/// is the last one before the cursor, or one the cursor stands in or right
/// before; the symbol is the word after it, the module the word before it.
/// `None` when there is no such `::`, when the cursor is not within the
/// symbol's word, or when no module name precedes the `::`.
pub open spec fn module_ref_in_line(line: Seq<char>, r: int) -> Option<(Seq<char>, Seq<char>)> {
    let colon = match last_double_colon(line.take(r)) {
        Some(c) => Some(c),
        None => if r > 0 && line[r - 1] == ':' && r < line.len() && line[r] == ':' {
            Some(r - 1)
        } else if r + 1 < line.len() && line[r] == ':' && line[r + 1] == ':' {
            Some(r)
        } else {
            None
        },
    };
    match colon {
        None => None,
        Some(c) => {
            let ss = c + 2;
            if r < ss || !(forall|i: int| ss <= i < r ==> is_word_char(#[trigger] line[i])) {
                None
            } else {
                let module = word_suffix(line.take(c));
                if module.len() == 0 {
                    None
                } else {
                    Some((module, line.subrange(ss, word_end_from(line, ss))))
                }
            }
        },
    }
}

/// The module reference being typed at byte `offset` (clamped) of the
/// source with bytes `b`: [`module_ref_in_line`] on the line of the cursor,
/// which runs from the last line feed before the cursor to the end of the
/// text.
pub open spec fn module_ref_spec(b: Seq<u8>, offset: int) -> Option<(Seq<char>, Seq<char>)> {
    let m = clamp_offset(b, offset);
    let p = text_between(b, 0, m);
    let ls = line_start(p);
    module_ref_in_line(p.skip(ls) + text_between(b, m, b.len() as int), p.len() - ls)
}

/// The texts of an optional pair of strings.
pub open spec fn opt_pair(r: Option<(String, String)>) -> Option<(Seq<char>, Seq<char>)> {
    match r {
        Some((a, b)) => Some((a@, b@)),
        None => None,
    }
}

/// Computes [`word_end_from`].
pub fn find_word_end(s: &Vec<char>, i: usize) -> (r: usize)
    requires
        i <= s@.len(),
    ensures
        r == word_end_from(s@, i as int),
        i <= r <= s@.len(),
        forall|k: int| i <= k < r ==> is_word_char(#[trigger] s@[k]),
        r < s@.len() ==> !is_word_char(s@[r as int]),
{
    let mut j = i;
    while j < s.len() && word_char(s[j])
        invariant
            i <= j <= s@.len(),
            word_end_from(s@, i as int) == word_end_from(s@, j as int),
            forall|k: int| i <= k < j ==> is_word_char(#[trigger] s@[k]),
        decreases s.len() - j,
    {
        j += 1;
    }
    j
}

/// Computes [`module_ref_in_line`].
fn module_ref_in_chars(line: &Vec<char>, r: usize) -> (res: Option<(Vec<char>, Vec<char>)>)
    requires
        r <= line@.len(),
    ensures
        match res {
            Some((a, b)) => module_ref_in_line(line@, r as int) == Some((a@, b@)),
            None => module_ref_in_line(line@, r as int) is None,
        },
{
    let before = copy_range(line, 0, r);
    assert(before@ =~= line@.take(r as int));
    let c = match find_last_double_colon(&before) {
        Some(c) => c,
        None => {
            if r > 0 && line[r - 1] == ':' && r < line.len() && line[r] == ':' {
                r - 1
            } else if r < line.len() && line.len() - r >= 2 && line[r] == ':' && line[r + 1] == ':' {
                r
            } else {
                return None;
            }
        },
    };
    let ss = c + 2;
    if r < ss {
        return None;
    }
    let stop = find_word_end(line, ss);
    if stop < r {
        assert(!is_word_char(line@[stop as int]));
        return None;
    }
    let head = copy_range(line, 0, c);
    assert(head@ =~= line@.take(c as int));
    let start = find_word_start(&head);
    proof {
        lemma_word_start_bounds(head@);
    }
    let module = copy_range(&head, start, head.len());
    assert(module@ =~= word_suffix(head@));
    if module.len() == 0 {
        return None;
    }
    let symbol = copy_range(line, ss, stop);
    Some((module, symbol))
}

/// The module reference being typed at `offset`: the module name and the
/// partial symbol around a `::`; see [`module_ref_spec`].
pub fn module_ref_prefix(source: &str, offset: usize) -> (r: Option<(String, String)>)
    requires
        is_char_boundary(source.spec_bytes(), clamp_offset(source.spec_bytes(), offset as int)),
    ensures
        opt_pair(r) == module_ref_spec(source.spec_bytes(), offset as int),
{
    let bytes = source.as_bytes();
    let m = if offset < bytes.len() { offset } else { bytes.len() };
    proof {
        encode_utf8_valid_utf8(source@);
        is_char_boundary_start_end_of_seq(source.spec_bytes());
    }
    let p = chars_of(slice_str(source, 0, m));
    let t = chars_of(slice_str(source, m, bytes.len()));
    let ls = find_line_start(&p);
    let mut line = copy_range(&p, ls, p.len());
    let mut i: usize = 0;
    while i < t.len()
        invariant
            i <= t@.len(),
            line@ == p@.skip(ls as int) + t@.take(i as int),
        decreases t.len() - i,
    {
        line.push(t[i]);
        i += 1;
        assert(line@ =~= p@.skip(ls as int) + t@.take(i as int));
    }
    assert(t@.take(i as int) =~= t@);
    let r = p.len() - ls;
    match module_ref_in_chars(&line, r) {
        Some((module, symbol)) => Some((string_from_chars(&module), string_from_chars(&symbol))),
        None => None,
    }
}

/// Start of the first `::` in `s` at or after `i`.
pub open spec fn first_double_colon_from(s: Seq<char>, i: int) -> Option<int>
    decreases s.len() - i,
{
    if i < 0 || i + 2 > s.len() {
        None
    } else if s[i] == ':' && s[i + 1] == ':' {
        Some(i)
    } else {
        first_double_colon_from(s, i + 1)
    }
}

/// A `::` found from `i` on lies at or after `i`, within the text.
pub proof fn lemma_first_double_colon_from(s: Seq<char>, i: int)
    ensures
        first_double_colon_from(s, i) matches Some(k) ==> i <= k && k + 2 <= s.len() && s[k] == ':' && s[k + 1] == ':',
    decreases s.len() - i,
{
    if 0 <= i && i + 2 <= s.len() && !(s[i] == ':' && s[i + 1] == ':') {
        lemma_first_double_colon_from(s, i + 1);
    }
}

/// The pieces of `s[start..]` between occurrences of `::`, left to right.
pub open spec fn split_double_colon_from(s: Seq<char>, start: int) -> Seq<Seq<char>>
    decreases s.len() - start,
{
    if start < 0 || start > s.len() {
        Seq::empty()
    } else {
        match first_double_colon_from(s, start) {
            None => seq![s.skip(start)],
            Some(k) => {
                proof {
                    lemma_first_double_colon_from(s, start);
                }
                seq![s.subrange(start, k)] + split_double_colon_from(s, k + 2)
            },
        }
    }
}

/// The pieces of `s` between occurrences of `::`, as `str::split` gives them.
pub open spec fn split_double_colon(s: Seq<char>) -> Seq<Seq<char>> {
    split_double_colon_from(s, 0)
}

/// The pieces joined again with `::` between them.
pub open spec fn join_double_colon(segs: Seq<Seq<char>>) -> Seq<char>
    decreases segs.len(),
{
    if segs.len() == 0 {
        Seq::empty()
    } else if segs.len() == 1 {
        segs[0]
    } else {
        join_double_colon(segs.drop_last()) + seq![':', ':'] + segs.last()
    }
}

/// How many pieces at the front are `parent`, `self` or `package`.
pub open spec fn scope_prefix_count(segs: Seq<Seq<char>>) -> int
    decreases segs.len(),
{
    if segs.len() > 0 && is_scope_word(segs[0]) {
        1 + scope_prefix_count(segs.drop_first())
    } else {
        0
    }
}

/// Texts of strings.
pub open spec fn strings_view(v: Seq<String>) -> Seq<Seq<char>> {
    v.map_values(|s: String| s@)
}

/// What is being typed at the cursor, as far as module paths go.
#[derive(Debug)]
pub enum ModulePathContext {
    /// A module path after `import`: the leading scope words, and the
    /// partial module name.
    ImportPath { segments: Vec<String>, partial: String },
    /// A symbol path after `import module::`.
    ImportSymbol { module_name: String, partial: String },
    /// `module::partial` in an expression; `scope_qualified` when the path
    /// starts at `parent`, `self` or `package`.
    ModuleRef { module_name: String, partial: String, scope_qualified: bool },
}

/// [`ModulePathContext`] with texts in place of strings.
pub enum PathContextView {
    ImportPath { segments: Seq<Seq<char>>, partial: Seq<char> },
    ImportSymbol { module_name: Seq<char>, partial: Seq<char> },
    ModuleRef { module_name: Seq<char>, partial: Seq<char>, scope_qualified: bool },
}

impl View for ModulePathContext {
    type V = PathContextView;

    open spec fn view(&self) -> PathContextView {
        match self {
            ModulePathContext::ImportPath { segments, partial } => PathContextView::ImportPath {
                segments: strings_view(segments@),
                partial: partial@,
            },
            ModulePathContext::ImportSymbol { module_name, partial } => PathContextView::ImportSymbol {
                module_name: module_name@,
                partial: partial@,
            },
            ModulePathContext::ModuleRef { module_name, partial, scope_qualified } => PathContextView::ModuleRef {
                module_name: module_name@,
                partial: partial@,
                scope_qualified: *scope_qualified,
            },
        }
    }
}

/// The characters of `import `.
pub open spec fn import_keyword() -> Seq<char> {
    seq!['i', 'm', 'p', 'o', 'r', 't', ' ']
}

/// The first index in `s` of `;` or whitespace, else the length.
pub open spec fn path_end_from(s: Seq<char>, i: int) -> int
    decreases s.len() - i,
{
    if i < 0 || i >= s.len() {
        s.len() as int
    } else if s[i] == ';' || is_whitespace_spec(s[i]) {
        i
    } else {
        path_end_from(s, i + 1)
    }
}

/// The context of an `import` line whose text after `import ` is `after`.
pub open spec fn import_context(after: Seq<char>) -> Option<PathContextView> {
    let path = after.take(path_end_from(after, 0));
    let segs = split_double_colon(path);
    let pc = scope_prefix_count(segs);
    if segs.len() - pc <= 1 {
        Some(PathContextView::ImportPath {
            segments: segs.take(pc),
            partial: if pc < segs.len() { segs[pc] } else { Seq::empty() },
        })
    } else if segs[pc].len() == 0 {
        None
    } else {
        Some(PathContextView::ImportSymbol { module_name: segs[pc], partial: join_double_colon(segs.skip(pc + 1)) })
    }
}

/// The module-path context at byte `offset` (clamped) of the source with
/// bytes `b`: an import path when the line up to the cursor starts with
/// `import `, else the module reference being typed, if any.
pub open spec fn module_path_context_spec(b: Seq<u8>, offset: int) -> Option<PathContextView> {
    let m = clamp_offset(b, offset);
    let p = text_between(b, 0, m);
    let line = p.skip(line_start(p));
    let ts = trim_start(line);
    if ts.len() >= 7 && ts.take(7) == import_keyword() {
        import_context(ts.skip(7))
    } else {
        match module_ref_spec(b, offset) {
            Some((module_name, partial)) => Some(PathContextView::ModuleRef {
                module_name,
                partial,
                scope_qualified: scope_qualified_spec(line),
            }),
            None => None,
        }
    }
}

/// The view of an optional context.
pub open spec fn opt_context(r: Option<ModulePathContext>) -> Option<PathContextView> {
    match r {
        Some(c) => Some(c@),
        None => None,
    }
}

/// Splits `s` at each `::`, as [`split_double_colon`] does.
fn split_at_double_colons(s: &Vec<char>) -> (r: Vec<Vec<char>>)
    ensures
        r@.map_values(|v: Vec<char>| v@) == split_double_colon(s@),
{
    let mut segs: Vec<Vec<char>> = Vec::new();
    let mut start: usize = 0;
    let mut i: usize = 0;
    while s.len() >= 2 && i <= s.len() - 2
        invariant
            start <= i,
            i <= s@.len() + 1,
            start <= s@.len(),
            segs@.map_values(|v: Vec<char>| v@) + split_double_colon_from(s@, start as int) == split_double_colon(s@),
            first_double_colon_from(s@, start as int) == first_double_colon_from(s@, i as int),
        decreases s.len() + 2 - i,
    {
        if s[i] == ':' && s[i + 1] == ':' {
            let piece = copy_range(s, start, i);
            let ghost before = segs@.map_values(|v: Vec<char>| v@);
            segs.push(piece);
            assert(segs@.map_values(|v: Vec<char>| v@) =~= before.push(piece@));
            assert(split_double_colon_from(s@, start as int) =~= seq![s@.subrange(start as int, i as int)]
                + split_double_colon_from(s@, i + 2));
            start = i + 2;
            i = i + 2;
        } else {
            i += 1;
        }
    }
    assert(first_double_colon_from(s@, i as int) is None);
    let last = copy_range(s, start, s.len());
    assert(last@ =~= s@.skip(start as int));
    let ghost before = segs@.map_values(|v: Vec<char>| v@);
    segs.push(last);
    assert(segs@.map_values(|v: Vec<char>| v@) =~= before.push(last@));
    assert(before.push(last@) =~= before + seq![s@.skip(start as int)]);
    segs
}

/// Joins pieces with `::`, as [`join_double_colon`] does.
fn join_with_double_colons(segs: &Vec<Vec<char>>, from: usize) -> (r: Vec<char>)
    requires
        from <= segs@.len(),
    ensures
        r@ == join_double_colon(segs@.map_values(|v: Vec<char>| v@).skip(from as int)),
{
    let ghost all = segs@.map_values(|v: Vec<char>| v@).skip(from as int);
    let mut out: Vec<char> = Vec::new();
    let mut i: usize = from;
    while i < segs.len()
        invariant
            from <= i <= segs@.len(),
            all == segs@.map_values(|v: Vec<char>| v@).skip(from as int),
            out@ == join_double_colon(all.take(i - from)),
        decreases segs.len() - i,
    {
        assert(all.take(i + 1 - from).drop_last() =~= all.take(i - from));
        assert(all.take(i + 1 - from).last() == segs@[i as int]@);
        if i > from {
            out.push(':');
            out.push(':');
        }
        let seg = &segs[i];
        let mut k: usize = 0;
        let ghost base = out@;
        while k < seg.len()
            invariant
                k <= seg@.len(),
                out@ == base + seg@.take(k as int),
            decreases seg.len() - k,
        {
            out.push(seg[k]);
            k += 1;
            assert(out@ =~= base + seg@.take(k as int));
        }
        assert(seg@.take(k as int) =~= seg@);
        i += 1;
        if i - from == 1 {
            assert(out@ =~= join_double_colon(all.take(i - from)));
        } else {
            assert(out@ =~= join_double_colon(all.take(i - from)));
        }
    }
    assert(all.take(i - from) =~= all);
    out
}

/// Strings from character vectors.
fn strings_of(v: &Vec<Vec<char>>, n: usize) -> (r: Vec<String>)
    requires
        n <= v@.len(),
    ensures
        strings_view(r@) == v@.map_values(|c: Vec<char>| c@).take(n as int),
{
    let mut out: Vec<String> = Vec::new();
    let mut i: usize = 0;
    while i < n
        invariant
            i <= n <= v@.len(),
            strings_view(out@) == v@.map_values(|c: Vec<char>| c@).take(i as int),
        decreases n - i,
    {
        let ghost before = strings_view(out@);
        let piece = string_from_chars(&v[i]);
        out.push(piece);
        assert(strings_view(out@) =~= before.push(v@[i as int]@));
        assert(v@.map_values(|c: Vec<char>| c@).take(i + 1) =~= v@.map_values(|c: Vec<char>| c@).take(
            i as int,
        ).push(v@[i as int]@));
        i += 1;
    }
    out
}

/// Computes [`import_context`].
fn import_context_of(after: &Vec<char>) -> (r: Option<ModulePathContext>)
    ensures
        opt_context(r) == import_context(after@),
{
    let mut end: usize = 0;
    while end < after.len() && after[end] != ';' && !is_whitespace(after[end])
        invariant
            end <= after@.len(),
            path_end_from(after@, 0) == path_end_from(after@, end as int),
        decreases after.len() - end,
    {
        end += 1;
    }
    let path = copy_range(after, 0, end);
    assert(path@ =~= after@.take(end as int));
    let segs = split_at_double_colons(&path);
    let ghost sv = segs@.map_values(|v: Vec<char>| v@);
    let mut pc: usize = 0;
    assert(sv.skip(0) =~= sv);
    while pc < segs.len() && scope_word(&segs[pc])
        invariant
            pc <= sv.len(),
            sv == segs@.map_values(|v: Vec<char>| v@),
            scope_prefix_count(sv) == pc + scope_prefix_count(sv.skip(pc as int)),
        decreases segs.len() - pc,
    {
        assert(sv.skip(pc as int).drop_first() =~= sv.skip(pc + 1));
        pc += 1;
    }
    assert(scope_prefix_count(sv.skip(pc as int)) == 0);
    if segs.len() - pc <= 1 {
        let prefix = strings_of(&segs, pc);
        let partial = if pc < segs.len() {
            string_from_chars(&segs[pc])
        } else {
            string_from_chars(&Vec::new())
        };
        return Some(ModulePathContext::ImportPath { segments: prefix, partial });
    }
    if segs[pc].len() == 0 {
        return None;
    }
    let module_name = string_from_chars(&segs[pc]);
    let rest = join_with_double_colons(&segs, pc + 1);
    Some(ModulePathContext::ImportSymbol { module_name, partial: string_from_chars(&rest) })
}

/// What module path is being typed at `offset`; see
/// [`module_path_context_spec`].
pub fn module_path_context(source: &str, offset: usize) -> (r: Option<ModulePathContext>)
    requires
        is_char_boundary(source.spec_bytes(), clamp_offset(source.spec_bytes(), offset as int)),
    ensures
        opt_context(r) == module_path_context_spec(source.spec_bytes(), offset as int),
{
    let bytes = source.as_bytes();
    let m = if offset < bytes.len() { offset } else { bytes.len() };
    proof {
        encode_utf8_valid_utf8(source@);
        is_char_boundary_start_end_of_seq(source.spec_bytes());
    }
    let p = chars_of(slice_str(source, 0, m));
    let ls = find_line_start(&p);
    let line = copy_range(&p, ls, p.len());
    assert(line@ =~= p@.skip(ls as int));
    let mut i: usize = 0;
    assert(line@.skip(0) =~= line@);
    while i < line.len() && is_whitespace(line[i])
        invariant
            i <= line@.len(),
            trim_start(line@) == trim_start(line@.skip(i as int)),
        decreases line.len() - i,
    {
        assert(line@.skip(i as int).drop_first() =~= line@.skip(i + 1));
        i += 1;
    }
    let ts = copy_range(&line, i, line.len());
    assert(ts@ =~= line@.skip(i as int));
    let keyword = ['i', 'm', 'p', 'o', 'r', 't', ' '];
    if ts.len() >= 7 && crate::chars::word_eq(&ts, 0, 7, keyword.as_slice()) {
        assert(keyword@ =~= import_keyword());
        let after = copy_range(&ts, 7, ts.len());
        assert(after@ =~= ts@.skip(7));
        return import_context_of(&after);
    }
    assert(!(ts@.len() >= 7 && ts@.take(7) == import_keyword())) by {
        if ts@.len() >= 7 && ts@.take(7) == import_keyword() {
            assert(keyword@ =~= import_keyword());
            assert(ts@.subrange(0, 7) =~= ts@.take(7));
        }
    }
    match module_ref_prefix(source, offset) {
        Some((module_name, partial)) => {
            let line_text = string_from_chars(&line);
            let scope_qualified = is_scope_qualified(line_text.as_str());
            Some(ModulePathContext::ModuleRef { module_name, partial, scope_qualified })
        },
        None => None,
    }
}

/// Index of the first line feed in `s` at or after `i`.
pub open spec fn newline_from(s: Seq<char>, i: int) -> Option<int>
    decreases s.len() - i,
{
    if i < 0 || i >= s.len() {
        None
    } else if s[i] == '\n' {
        Some(i)
    } else {
        newline_from(s, i + 1)
    }
}

/// A line feed found from `i` on lies at or after `i`, within the text.
pub proof fn lemma_newline_from(s: Seq<char>, i: int)
    ensures
        newline_from(s, i) matches Some(k) ==> i <= k < s.len(),
    decreases s.len() - i,
{
    if 0 <= i < s.len() && s[i] != '\n' {
        lemma_newline_from(s, i + 1);
    }
}

/// The pieces of `s[start..]` between line feeds.
pub open spec fn lines_from(s: Seq<char>, start: int) -> Seq<Seq<char>>
    decreases s.len() - start,
{
    if start < 0 || start > s.len() {
        Seq::empty()
    } else {
        match newline_from(s, start) {
            None => seq![s.skip(start)],
            Some(k) => {
                proof {
                    lemma_newline_from(s, start);
                }
                seq![s.subrange(start, k)] + lines_from(s, k + 1)
            },
        }
    }
}

/// `s` without the `;` characters at its end.
pub open spec fn trim_semicolons(s: Seq<char>) -> Seq<char>
    decreases s.len(),
{
    if s.len() > 0 && s.last() == ';' {
        trim_semicolons(s.drop_last())
    } else {
        s
    }
}

/// The module a line imports: the trimmed line after `import `, without
/// trailing semicolons and surrounding whitespace.
pub open spec fn import_of_line(line: Seq<char>) -> Option<Seq<char>> {
    let t = trim(line);
    if t.len() >= 7 && t.take(7) == import_keyword() {
        Some(trim(trim_semicolons(t.skip(7))))
    } else {
        None
    }
}

/// The modules that the first `n` of `lines` import.
pub open spec fn imports_upto(lines: Seq<Seq<char>>, n: int) -> Set<Seq<char>>
    decreases if n > 0 { n } else { 0 },
{
    if n <= 0 || n > lines.len() {
        Set::empty()
    } else {
        match import_of_line(lines[n - 1]) {
            Some(x) => imports_upto(lines, n - 1).insert(x),
            None => imports_upto(lines, n - 1),
        }
    }
}

/// The modules that the lines of `s` import.
pub open spec fn imports_spec(s: Seq<char>) -> Set<Seq<char>> {
    imports_upto(lines_from(s, 0), lines_from(s, 0).len() as int)
}

/// Splits `s` at each line feed, as [`lines_from`] does.
fn split_lines(s: &Vec<char>) -> (r: Vec<Vec<char>>)
    ensures
        texts(r@) == lines_from(s@, 0),
{
    let mut out: Vec<Vec<char>> = Vec::new();
    let mut start: usize = 0;
    let mut i: usize = 0;
    while i < s.len()
        invariant
            start <= i <= s@.len(),
            texts(out@) + lines_from(s@, start as int) == lines_from(s@, 0),
            newline_from(s@, start as int) == newline_from(s@, i as int),
        decreases s.len() - i,
    {
        if s[i] == '\n' {
            let piece = copy_range(s, start, i);
            let ghost before = texts(out@);
            out.push(piece);
            assert(texts(out@) =~= before.push(piece@));
            assert(before.push(piece@) + lines_from(s@, i + 1) =~= before + (seq![piece@] + lines_from(s@, i + 1)));
            start = i + 1;
        }
        i += 1;
    }
    let last = copy_range(s, start, s.len());
    assert(last@ =~= s@.skip(start as int));
    let ghost before = texts(out@);
    out.push(last);
    assert(texts(out@) =~= before.push(last@));
    assert(before.push(last@) =~= before + seq![s@.skip(start as int)]);
    out
}

/// Computes [`import_of_line`].
fn import_of(line: &Vec<char>) -> (r: Option<Vec<char>>)
    ensures
        match r {
            Some(v) => import_of_line(line@) == Some(v@),
            None => import_of_line(line@) is None,
        },
{
    let t = trim_chars(line);
    let keyword = ['i', 'm', 'p', 'o', 'r', 't', ' '];
    assert(keyword@ =~= import_keyword());
    if t.len() >= 7 && crate::chars::word_eq(&t, 0, 7, keyword.as_slice()) {
        let mut rest = copy_range(&t, 7, t.len());
        assert(rest@ =~= t@.skip(7));
        let ghost whole = rest@;
        while rest.len() > 0 && rest[rest.len() - 1] == ';'
            invariant
                trim_semicolons(whole) == trim_semicolons(rest@),
            decreases rest.len(),
        {
            rest.pop();
        }
        Some(trim_chars(&rest))
    } else {
        assert(!(t@.len() >= 7 && t@.take(7) == import_keyword())) by {
            if t@.len() >= 7 && t@.take(7) == import_keyword() {
                assert(t@.subrange(0, 7) =~= t@.take(7));
            }
        }
        None
    }
}

/// Whether two character vectors hold the same text.
pub fn same_chars(a: &Vec<char>, b: &Vec<char>) -> (r: bool)
    ensures
        r == (a@ == b@),
{
    let r = crate::chars::word_eq(a, 0, a.len(), b.as_slice());
    assert(a@.subrange(0, a@.len() as int) =~= a@);
    r
}

/// The texts of character vectors.
pub open spec fn texts(v: Seq<Vec<char>>) -> Seq<Seq<char>> {
    v.map_values(|c: Vec<char>| c@)
}

/// The modules that `source` imports, one per `import` line, each once.
pub fn current_imports(source: &str) -> (r: Vec<String>)
    ensures
        strings_view(r@).to_set() == imports_spec(source@),
        strings_view(r@).no_duplicates(),
{
    broadcast use vstd::seq_lib::group_seq_properties;

    let cs = chars_of(source);
    let lines = split_lines(&cs);
    let ghost ls = texts(lines@);
    let mut found: Vec<Vec<char>> = Vec::new();
    let mut i: usize = 0;
    while i < lines.len()
        invariant
            i <= ls.len(),
            ls == texts(lines@),
            ls == lines_from(cs@, 0),
            texts(found@).no_duplicates(),
            texts(found@).to_set() == imports_upto(ls, i as int),
        decreases lines.len() - i,
    {
        assert(ls[i as int] == lines@[i as int]@);
        assert(imports_upto(ls, i + 1) == match import_of_line(ls[i as int]) {
            Some(x) => imports_upto(ls, i as int).insert(x),
            None => imports_upto(ls, i as int),
        });
        match import_of(&lines[i]) {
            Some(module) => {
                let mut k: usize = 0;
                let mut present = false;
                while k < found.len()
                    invariant
                        k <= found@.len(),
                        present ==> texts(found@).contains(module@),
                        !present ==> forall|m: int| 0 <= m < k ==> found@[m]@ != module@,
                    decreases found.len() - k,
                {
                    if same_chars(&found[k], &module) {
                        present = true;
                        assert(texts(found@)[k as int] == module@);
                    }
                    k += 1;
                }
                let ghost before = texts(found@);
                let ghost mv = module@;
                if present {
                    assert(before.to_set().insert(mv) =~= before.to_set());
                } else {
                    found.push(module);
                    assert(texts(found@) =~= before.push(mv));
                    proof {
                        before.lemma_push_to_set_commute(mv);
                    }
                    assert(!before.contains(mv)) by {
                        if before.contains(mv) {
                            let m = choose|m: int| 0 <= m < before.len() && before[m] == mv;
                            assert(found@[m]@ == mv);
                        }
                    }
                }
            },
            None => {},
        }
        i += 1;
    }
    let r = strings_of(&found, found.len());
    assert(texts(found@).take(found@.len() as int) =~= texts(found@));
    r
}

/// Encoding a concatenation concatenates the encodings.
pub proof fn lemma_encode_concat(a: Seq<char>, c: Seq<char>)
    ensures
        encode_utf8(a + c) == encode_utf8(a) + encode_utf8(c),
    decreases a.len(),
{
    if a.len() > 0 {
        lemma_encode_concat(a.drop_first(), c);
        assert((a + c).drop_first() =~= a.drop_first() + c);
        assert(encode_utf8(a + c) =~= encode_scalar(a[0] as u32) + encode_utf8(a.drop_first() + c));
        assert(encode_utf8(a) =~= encode_scalar(a[0] as u32) + encode_utf8(a.drop_first()));
    } else {
        assert(a + c =~= c);
    }
}

/// The end of the encoding of a prefix is a character boundary of the
/// encoding of the whole.
pub proof fn lemma_encode_prefix_boundary(a: Seq<char>, c: Seq<char>)
    ensures
        is_char_boundary(encode_utf8(a + c), encode_utf8(a).len() as int),
    decreases a.len(),
{
    encode_utf8_valid_utf8(a + c);
    if a.len() == 0 {
        is_char_boundary_start_end_of_seq(encode_utf8(a + c));
    } else {
        let whole = a + c;
        lemma_encode_prefix_boundary(a.drop_first(), c);
        encode_utf8_first_scalar(whole);
        assert(whole.drop_first() =~= a.drop_first() + c);
        let bytes = encode_utf8(whole);
        assert(bytes =~= encode_scalar(whole[0] as u32) + encode_utf8(whole.drop_first()));
        assert(pop_first_scalar(bytes) =~= encode_utf8(whole.drop_first()));
        assert(encode_utf8(a) =~= encode_scalar(a[0] as u32) + encode_utf8(a.drop_first()));
        lemma_encode_concat(a, c);
    }
}

/// ASCII characters encode to one byte each.
pub proof fn lemma_encode_ascii_len(s: Seq<char>)
    requires
        forall|i: int| 0 <= i < s.len() ==> (#[trigger] s[i] as u32) < 0x80,
    ensures
        encode_utf8(s).len() == s.len(),
    decreases s.len(),
{
    if s.len() > 0 {
        assert forall|i: int| 0 <= i < s.drop_first().len() implies (#[trigger] s.drop_first()[i] as u32) < 0x80 by {
            assert(s.drop_first()[i] == s[i + 1]);
        }
        lemma_encode_ascii_len(s.drop_first());
        assert((s[0] as u32) < 0x80);
    }
}


/// Length in bytes of the UTF-8 encoding.
pub open spec fn encode_len(s: Seq<char>) -> int {
    encode_utf8(s).len() as int
}

/// Bytes in the UTF-8 encoding of `c`.
pub fn char_byte_len(c: char) -> (r: usize)
    ensures
        r == encode_scalar(c as u32).len(),
        1 <= r <= 4,
{
    proof {
        char_is_scalar(c);
    }
    let v = c as u32;
    if v < 0x80 {
        1
    } else if v < 0x800 {
        2
    } else if v < 0x10000 {
        3
    } else {
        4
    }
}

/// Bytes in the UTF-8 encoding of `s[from..to]`.
pub fn range_byte_len(s: &Vec<char>, from: usize, to: usize, bound: usize) -> (r: usize)
    requires
        from <= to <= s@.len(),
        encode_len(s@.subrange(from as int, to as int)) <= bound,
    ensures
        r == encode_len(s@.subrange(from as int, to as int)),
{
    let mut n: usize = 0;
    let mut i = from;
    while i < to
        invariant
            from <= i <= to <= s@.len(),
            n == encode_len(s@.subrange(from as int, i as int)),
            encode_len(s@.subrange(from as int, to as int)) <= bound,
        decreases to - i,
    {
        let ghost pre = s@.subrange(from as int, i as int);
        proof {
            lemma_encode_concat(pre, seq![s@[i as int]]);
            assert(pre + seq![s@[i as int]] =~= s@.subrange(from as int, i + 1));
            assert(seq![s@[i as int]].drop_first() =~= Seq::<char>::empty());
            reveal_with_fuel(encode_utf8, 2);
            assert(encode_utf8(seq![s@[i as int]]) =~= encode_scalar(s@[i as int] as u32));
            lemma_encode_concat(s@.subrange(from as int, i + 1), s@.subrange(i + 1, to as int));
            assert(s@.subrange(from as int, i + 1) + s@.subrange(i + 1, to as int) =~= s@.subrange(from as int, to as int));
        }
        let w = char_byte_len(s[i]);
        n = n + w;
        i += 1;
    }
    n
}

/// `s` without one trailing carriage return.
pub open spec fn strip_cr(s: Seq<char>) -> Seq<char> {
    if s.len() > 0 && s.last() == '\r' {
        s.drop_last()
    } else {
        s
    }
}

/// Whether a line, once its leading blanks are trimmed, starts with
/// `import `.
pub open spec fn is_import_line(line: Seq<char>) -> bool {
    let t = trim_start(line);
    t.len() >= 7 && t.take(7) == import_keyword()
}

/// The bytes taken by the run of `import` lines from character `pos` on:
/// each line's length without its line ending, plus one.
pub open spec fn import_block_len(s: Seq<char>, pos: int) -> int
    decreases s.len() + 1 - pos,
{
    if pos < 0 || pos > s.len() {
        0
    } else {
        let piece = match newline_from(s, pos) {
            Some(k) => s.subrange(pos, k),
            None => s.skip(pos),
        };
        if !is_import_line(piece) {
            0
        } else {
            proof {
                lemma_newline_from(s, pos);
            }
            encode_len(strip_cr(piece)) + 1 + match newline_from(s, pos) {
                Some(k) => import_block_len(s, k + 1),
                None => 0,
            }
        }
    }
}

/// Where an added import goes: after the `import` lines that open the
/// source, as a byte offset clamped to the text.
pub open spec fn import_insert_offset(s: Seq<char>) -> int {
    let n = import_block_len(s, 0);
    if n < encode_len(s) {
        n
    } else {
        encode_len(s)
    }
}

/// The empty range where an added import goes; see
/// [`import_insert_offset`].
pub fn import_edit_range(line_index: &LineIndex, source: &str) -> (r: Range)
    requires
        line_index.wf(),
        line_index.bytes() == source.spec_bytes(),
        is_char_boundary(source.spec_bytes(), import_insert_offset(source@)),
    ensures
        r.start == position_spec(source.spec_bytes(), import_insert_offset(source@)),
        r.end == r.start,
{
    let cs = chars_of(source);
    let nbytes = source.as_bytes().len();
    assert(nbytes == encode_len(cs@));
    let mut offset: usize = 0;
    let mut pos: usize = 0;
    let mut stopped = false;
    let ghost total = import_block_len(cs@, 0);
    proof {
        lemma_encode_concat(cs@.subrange(0, 0), cs@);
        assert(cs@.subrange(0, 0) + cs@ =~= cs@);
    }
    while !stopped && pos <= cs.len()
        invariant
            pos <= cs@.len() + 1,
            cs@ == source@,
            nbytes == encode_len(cs@),
            nbytes < u32::MAX,
            !stopped ==> pos <= cs@.len(),
            !stopped ==> offset + import_block_len(cs@, pos as int) == total,
            !stopped ==> offset <= encode_len(cs@.subrange(0, pos as int)),
            stopped ==> offset == total,
            stopped ==> offset <= nbytes + 1,
            total == import_block_len(cs@, 0),
        decreases cs.len() + 2 - pos, if stopped { 0int } else { 1int },
    {
        let (k, is_import, len) = import_line_at(&cs, pos);
        proof {
            lemma_newline_from(cs@, pos as int);
            assert(cs@.skip(pos as int) =~= cs@.subrange(pos as int, cs@.len() as int));
            lemma_encode_concat(cs@.subrange(0, pos as int), cs@.subrange(pos as int, cs@.len() as int));
            assert(cs@.subrange(0, pos as int) + cs@.subrange(pos as int, cs@.len() as int) =~= cs@);
        }
        if !is_import {
            stopped = true;
        } else {
            proof {
                lemma_encode_concat(cs@.subrange(0, pos as int), cs@.subrange(pos as int, pos + len));
                assert(cs@.subrange(0, pos as int) + cs@.subrange(pos as int, pos + len) =~= cs@.subrange(0, pos + len));
                lemma_encode_concat(cs@.subrange(0, pos + len), cs@.subrange(pos + len, cs@.len() as int));
                assert(cs@.subrange(0, pos + len) + cs@.subrange(pos + len, cs@.len() as int) =~= cs@);
            }
            let piece_len = range_byte_len(&cs, pos, pos + len, nbytes);
            offset = offset + piece_len + 1;
            if k < cs.len() {
                proof {
                    lemma_encode_concat(cs@.subrange(0, pos + len), cs@.subrange(pos + len, k + 1));
                    assert(cs@.subrange(0, pos + len) + cs@.subrange(pos + len, k + 1) =~= cs@.subrange(0, k + 1));
                    lemma_encode_nonempty(cs@.subrange(pos + len, k + 1));
                }
                pos = k + 1;
            } else {
                stopped = true;
            }
        }
    }
    let clamped = if offset < nbytes { offset } else { nbytes };
    let position = position_at(line_index, clamped);
    Range::new(position, position)
}

/// The line at `pos`: where it ends, whether it is an `import` line, and
/// its length without a trailing carriage return.
fn import_line_at(cs: &Vec<char>, pos: usize) -> (r: (usize, bool, usize))
    requires
        pos <= cs@.len(),
    ensures
        r.0 == match newline_from(cs@, pos as int) {
            Some(e) => e,
            None => cs@.len() as int,
        },
        pos <= r.0 <= cs@.len(),
        r.1 == is_import_line(cs@.subrange(pos as int, r.0 as int)),
        r.2 <= r.0 - pos,
        r.2 < r.0 - pos ==> r.2 + 1 == r.0 - pos,
        cs@.subrange(pos as int, pos + r.2) == strip_cr(cs@.subrange(pos as int, r.0 as int)),
        r.0 < cs@.len() ==> cs@[r.0 as int] == '\n',
{
    let mut k = pos;
    while k < cs.len() && cs[k] != '\n'
        invariant
            pos <= k <= cs@.len(),
            newline_from(cs@, pos as int) == newline_from(cs@, k as int),
        decreases cs.len() - k,
    {
        k += 1;
    }
    let piece = copy_range(cs, pos, k);
    let mut i: usize = 0;
    assert(piece@.skip(0) =~= piece@);
    while i < piece.len() && is_whitespace(piece[i])
        invariant
            i <= piece@.len(),
            trim_start(piece@) == trim_start(piece@.skip(i as int)),
        decreases piece.len() - i,
    {
        assert(piece@.skip(i as int).drop_first() =~= piece@.skip(i + 1));
        i += 1;
    }
    let keyword = ['i', 'm', 'p', 'o', 'r', 't', ' '];
    assert(keyword@ =~= import_keyword());
    let is_import = piece.len() - i >= 7 && crate::chars::word_eq(&piece, i, i + 7, keyword.as_slice());
    assert(is_import == is_import_line(piece@)) by {
        if piece@.len() - i >= 7 {
            assert(piece@.subrange(i as int, i + 7) =~= piece@.skip(i as int).take(7));
        }
    }
    let mut len = k - pos;
    if len > 0 && cs[k - 1] == '\r' {
        len = len - 1;
    }
    assert(cs@.subrange(pos as int, pos + len) =~= strip_cr(piece@));
    (k, is_import, len)
}

/// A nonempty text takes at least one byte.
proof fn lemma_encode_nonempty(s: Seq<char>)
    requires
        s.len() >= 1,
    ensures
        encode_len(s) >= s.len(),
    decreases s.len(),
{
    if s.len() > 1 {
        lemma_encode_nonempty(s.drop_first());
    }
    char_is_scalar(s[0]);
}

} // verus!
