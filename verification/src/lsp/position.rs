//! Conversions between byte offsets into a document and the client's
//! positions: zero-based lines and UTF-16 columns.
//!
//! The line tables and the UTF-16 arithmetic come from the `line-index`
//! crate; the wrappers below build its index over the document text for each
//! query.

use vstd::prelude::*;
use vstd::string::StringSliceAdditionalSpecFns;
use vstd::utf8::*;

use crate::lsp::text::text_between;

verus! {

broadcast use vstd::utf8::group_utf8_lib;

/// A position as the client sends it: zero-based line and UTF-16 column.
#[derive(Debug, Clone, Copy, PartialEq, Eq, Structural)]
pub struct Position {
    pub line: u32,
    pub character: u32,
}

impl Position {
    /// The position with this line and column.
    pub open spec fn new_spec(line: u32, character: u32) -> Position {
        Position { line, character }
    }

    /// A position from its line and column.
    pub fn new(line: u32, character: u32) -> (p: Self)
        ensures
            p.line == line,
            p.character == character,
    {
        Position { line, character }
    }
}

/// A range between two positions.
#[derive(Debug, Clone, Copy, PartialEq, Eq, Structural)]
pub struct Range {
    pub start: Position,
    pub end: Position,
}

impl Range {
    /// A range from its two ends.
    pub fn new(start: Position, end: Position) -> (r: Self)
        ensures
            r.start == start,
            r.end == end,
    {
        Range { start, end }
    }
}

/// The line table of a document: its text, shorter than `u32::MAX` bytes.
#[derive(Debug)]
pub struct LineIndex {
    text: String,
}

impl LineIndex {
    /// The bytes of the indexed text.
    pub closed spec fn bytes(&self) -> Seq<u8> {
        encode_utf8(self.text@)
    }

    /// The indexed text fits the index's 32-bit offsets.
    pub open spec fn wf(&self) -> bool {
        self.bytes().len() < u32::MAX
    }

    /// Indexes `text`.
    pub fn new(text: &str) -> (li: Self)
        requires
            text.spec_bytes().len() < u32::MAX,
        ensures
            li.wf(),
            li.bytes() == text.spec_bytes(),
    {
        let copy = crate::chars::string_from_chars(&crate::chars::chars_of(text));
        LineIndex { text: copy }
    }

    /// Length of the text in bytes.
    pub fn len(&self) -> (n: u32)
        requires
            self.wf(),
        ensures
            n == self.bytes().len(),
    {
        let b = self.text.as_str().as_bytes();
        b.len() as u32
    }
}

/// How many line feeds the bytes `b[0..off]` hold.
pub open spec fn newline_count(b: Seq<u8>, off: int) -> nat
    decreases if off > 0 { off } else { 0 },
{
    if off <= 0 || off > b.len() {
        0
    } else if b[off - 1] == 0x0a {
        newline_count(b, off - 1) + 1
    } else {
        newline_count(b, off - 1)
    }
}

/// Where the line holding byte `off` starts: just past the last line feed
/// before it.
pub open spec fn line_start_byte(b: Seq<u8>, off: int) -> int
    decreases if off > 0 { off } else { 0 },
{
    if off <= 0 || off > b.len() {
        0
    } else if b[off - 1] == 0x0a {
        off
    } else {
        line_start_byte(b, off - 1)
    }
}

/// Where line `line` starts: just past the `line`-th line feed, if the text
/// has that many.
pub open spec fn nth_line_start(b: Seq<u8>, line: nat) -> Option<int>
    decreases line,
{
    if line == 0 {
        Some(0)
    } else {
        match nth_line_start(b, (line - 1) as nat) {
            Some(s) => match first_newline_at(b, s) {
                Some(i) => Some(i + 1),
                None => None,
            },
            None => None,
        }
    }
}

/// Index of the first line feed at or after `i`.
pub open spec fn first_newline_at(b: Seq<u8>, i: int) -> Option<int>
    decreases b.len() - i,
{
    if i < 0 || i >= b.len() {
        None
    } else if b[i] == 0x0a {
        Some(i)
    } else {
        first_newline_at(b, i + 1)
    }
}

/// Length of a text in UTF-16 code units: two for a character beyond the
/// Basic Multilingual Plane, one for any other.
pub open spec fn utf16_len(s: Seq<char>) -> nat
    decreases s.len(),
{
    if s.len() == 0 {
        0
    } else {
        (if (s[0] as u32) >= 0x10000 { 2nat } else { 1nat }) + utf16_len(s.drop_first())
    }
}

/// A text takes no more UTF-16 code units than UTF-8 bytes.
proof fn lemma_utf16_len_bound(s: Seq<char>)
    ensures
        utf16_len(s) <= encode_utf8(s).len(),
    decreases s.len(),
{
    if s.len() > 0 {
        lemma_utf16_len_bound(s.drop_first());
        char_is_scalar(s[0]);
    }
}

/// The bytes between two character boundaries of valid UTF-8 are valid
/// UTF-8 themselves.
proof fn lemma_subrange_valid(b: Seq<u8>, s: int, e: int)
    requires
        valid_utf8(b),
        0 <= s <= e <= b.len(),
        is_char_boundary(b, s),
        is_char_boundary(b, e),
    ensures
        valid_utf8(b.subrange(s, e)),
{
    valid_utf8_split(b, s);
    let rb = b.subrange(s, b.len() as int);
    let k = e - s;
    if k < rb.len() {
        is_char_boundary_iff_not_is_continuation_byte(b, e);
        is_char_boundary_iff_not_is_continuation_byte(rb, k);
        assert(rb[k] == b[e]);
    } else {
        is_char_boundary_start_end_of_seq(rb);
    }
    valid_utf8_split(rb, k);
    assert(rb.subrange(0, k) =~= b.subrange(s, e));
}

/// The byte column on line `line` that UTF-16 column `col` maps to, as
/// `LineIndex::to_utf8` computes it for the text with bytes `b`.
pub uninterp spec fn utf16_to_utf8_col(b: Seq<u8>, line: u32, col: u32) -> Option<u32>;

/// Line and byte column of the valid offset `off`, by `LineIndex::line_col`.
///
/// The contract states what the source of `line_col` shows: the line is the
/// number of line feeds before the offset, the column its distance from the
/// start of that line. `LineIndex::new` asserts that the text is shorter than
/// `u32::MAX` bytes, and `line_col` panics on an offset inside a character.
#[verifier::external_body]
fn index_line_col(text: &str, off: u32) -> (r: (u32, u32))
    requires
        text.spec_bytes().len() < u32::MAX,
        is_char_boundary(text.spec_bytes(), off as int),
    ensures
        r.0 == newline_count(text.spec_bytes(), off as int),
        r.1 == off - line_start_byte(text.spec_bytes(), off as int),
{
    let lc = line_index::LineIndex::new(text).line_col(line_index::TextSize::from(off));
    (lc.line, lc.col)
}

/// UTF-16 column of byte column `col` on line `line`, by
/// `LineIndex::to_wide` with `WideEncoding::Utf16`.
///
/// The contract is stated for a column at a character boundary within its
/// line: the result is the UTF-16 length of the line's text before the
/// column, as the source subtracts, for each multi-byte character ending by
/// then, its UTF-8 length less its UTF-16 length.
#[verifier::external_body]
fn index_to_utf16(text: &str, line: u32, col: u32) -> (r: Option<(u32, u32)>)
    requires
        text.spec_bytes().len() < u32::MAX,
        nth_line_start(text.spec_bytes(), line as nat) is Some,
        ({
            let s = nth_line_start(text.spec_bytes(), line as nat).unwrap();
            &&& is_char_boundary(text.spec_bytes(), s + col)
            &&& forall|i: int| s <= i < s + col ==> text.spec_bytes()[i] != 0x0a
        }),
    ensures
        ({
            let s = nth_line_start(text.spec_bytes(), line as nat).unwrap();
            r == Some((line, utf16_len(text_between(text.spec_bytes(), s, s + col)) as u32))
        }),
{
    line_index::LineIndex::new(text).to_wide(
        line_index::WideEncoding::Utf16,
        line_index::LineCol { line, col },
    ).map(|w| (w.line, w.col))
}

/// Byte column of UTF-16 column `col` on line `line`, by
/// `LineIndex::to_utf8` with `WideEncoding::Utf16`.
///
/// The column is named [`utf16_to_utf8_col`]. The contract adds that the
/// line is kept, and what the source's loop over the line's multi-byte
/// characters gives for a UTF-16 column that is the UTF-16 length of a
/// prefix of the line ending at a character boundary: the byte length of
/// that prefix. Other columns are left to the name.
#[verifier::external_body]
fn index_to_utf8(text: &str, line: u32, col: u32) -> (r: Option<(u32, u32)>)
    requires
        text.spec_bytes().len() < u32::MAX,
    ensures
        r == match utf16_to_utf8_col(text.spec_bytes(), line, col) {
            Some(c) => Some((line, c)),
            None => None,
        },
        nth_line_start(text.spec_bytes(), line as nat) matches Some(s) ==> forall|e: int|
            s <= e <= text.spec_bytes().len() && is_char_boundary(text.spec_bytes(), e) && (forall|i: int|
                s <= i < e ==> text.spec_bytes()[i] != 0x0a) && col == utf16_len(
                #[trigger] text_between(text.spec_bytes(), s, e),
            ) ==> r == Some((line, (e - s) as u32)),
{
    line_index::LineIndex::new(text).to_utf8(
        line_index::WideEncoding::Utf16,
        line_index::WideLineCol { line, col },
    ).map(|lc| (lc.line, lc.col))
}

/// Byte offset of line `line`, column `col`, by `LineIndex::offset`.
///
/// The contract states what the source shows: the start of the line plus
/// the column, `None` when the text has fewer lines. The sum is a `u32`
/// addition, which panics on overflow; `requires` rules that out.
#[verifier::external_body]
fn index_offset(text: &str, line: u32, col: u32) -> (r: Option<u32>)
    requires
        text.spec_bytes().len() < u32::MAX,
        nth_line_start(text.spec_bytes(), line as nat) matches Some(s) ==> s + col <= u32::MAX,
    ensures
        r == match nth_line_start(text.spec_bytes(), line as nat) {
            Some(s) => Some((s + col) as u32),
            None => None,
        },
{
    line_index::LineIndex::new(text).offset(line_index::LineCol { line, col }).map(u32::from)
}

/// The start of the line holding a byte is where [`nth_line_start`] puts the
/// line numbered by the line feeds before it, and no line feed lies between.
proof fn lemma_line_start(b: Seq<u8>, off: int)
    requires
        0 <= off <= b.len(),
    ensures
        nth_line_start(b, newline_count(b, off)) == Some(line_start_byte(b, off)),
        0 <= line_start_byte(b, off) <= off,
        forall|i: int| line_start_byte(b, off) <= i < off ==> b[i] != 0x0a,
    decreases off,
{
    if off > 0 {
        lemma_line_start(b, off - 1);
        if b[off - 1] == 0x0a {
            let k = newline_count(b, off - 1);
            let s = line_start_byte(b, off - 1);
            assert(newline_count(b, off) == k + 1);
            lemma_first_newline_at(b, s, off - 1);
        }
    }
}

/// A line starts at a character boundary.
proof fn lemma_line_start_boundary(b: Seq<u8>, off: int)
    requires
        valid_utf8(b),
        0 <= off <= b.len(),
    ensures
        is_char_boundary(b, line_start_byte(b, off)),
    decreases off,
{
    if off > 0 {
        if b[off - 1] == 0x0a {
            if off < b.len() {
                is_char_boundary_iff_not_is_continuation_byte(b, off - 1);
                is_char_boundary_iff_not_is_continuation_byte(b, off);
                lemma_after_ascii_not_continuation(b, off - 1);
            } else {
                is_char_boundary_start_end_of_seq(b);
            }
        } else {
            lemma_line_start_boundary(b, off - 1);
        }
    } else {
        is_char_boundary_start_end_of_seq(b);
    }
}

/// In valid UTF-8 the byte after an ASCII byte starts a character.
pub proof fn lemma_after_ascii_not_continuation(b: Seq<u8>, i: int)
    requires
        valid_utf8(b),
        0 <= i < b.len() - 1,
        b[i] < 0x80,
    ensures
        !is_continuation_byte(b[i + 1]),
{
    is_char_boundary_iff_is_leading_byte(b, i);
    is_char_boundary_iff_not_is_continuation_byte(b, i);
    valid_utf8_split(b, i);
    let rest = b.subrange(i, b.len() as int);
    reveal_with_fuel(valid_utf8, 3);
    assert(rest[0] == b[i]);
    assert(pop_first_scalar(rest) =~= b.subrange(i + 1, b.len() as int));
    valid_utf8_split(b, i + 1);
    assert(b.subrange(i + 1, b.len() as int)[0] == b[i + 1]);
}

/// With no line feed in `b[s..e]` and one at `e`, the first line feed from
/// `s` on is at `e`.
proof fn lemma_first_newline_at(b: Seq<u8>, s: int, e: int)
    requires
        0 <= s <= e < b.len(),
        b[e] == 0x0a,
        forall|i: int| s <= i < e ==> b[i] != 0x0a,
    ensures
        first_newline_at(b, s) == Some(e),
    decreases e - s,
{
    if s < e {
        lemma_first_newline_at(b, s + 1, e);
    }
}

/// An offset clamped to the length of the text.
pub open spec fn clamp(b: Seq<u8>, offset: int) -> int {
    if offset < b.len() {
        offset
    } else {
        b.len() as int
    }
}

/// The position of byte `offset` (clamped): the number of line feeds before
/// it, and the UTF-16 length of its line's text before it.
pub open spec fn position_spec(b: Seq<u8>, offset: int) -> Position {
    let m = clamp(b, offset);
    Position {
        line: newline_count(b, m) as u32,
        character: utf16_len(text_between(b, line_start_byte(b, m), m)) as u32,
    }
}

/// Position of byte offset `offset` (clamped to the text): its line, and its
/// column in UTF-16 code units.
pub fn position_at(line_index: &LineIndex, offset: usize) -> (p: Position)
    requires
        line_index.wf(),
        is_char_boundary(line_index.bytes(), clamp(line_index.bytes(), offset as int)),
    ensures
        p == position_spec(line_index.bytes(), offset as int),
        ({
            let b = line_index.bytes();
            let m = if offset < b.len() { offset as int } else { b.len() as int };
            &&& p.line == newline_count(b, m)
            &&& p.character == utf16_len(text_between(b, line_start_byte(b, m), m))
        }),
{
    let text = line_index.text.as_str();
    let ghost b = text.spec_bytes();
    let len = line_index.len();
    let off: u32 = if offset <= u32::MAX as usize { offset as u32 } else { len };
    let off = if off < len { off } else { len };
    proof {
        lemma_line_start(b, off as int);
    }
    let (line, col) = index_line_col(text, off);
    proof {
        let s0 = line_start_byte(b, off as int);
        encode_utf8_valid_utf8(text@);
        lemma_line_start_boundary(b, off as int);
        lemma_subrange_valid(b, s0, off as int);
        decode_utf8_encode_utf8(b.subrange(s0, off as int));
        lemma_utf16_len_bound(text_between(b, s0, off as int));
    }
    let wide = match index_to_utf16(text, line, col) {
        Some(w) => w,
        None => (line, 0),
    };
    proof {
        lemma_newline_count_bound(b, off as int);
    }
    Position::new(wide.0, wide.1)
}

/// There are no more line feeds than bytes.
proof fn lemma_newline_count_bound(b: Seq<u8>, off: int)
    ensures
        newline_count(b, off) <= if off > 0 { off } else { 0 },
    decreases if off > 0 { off } else { 0 },
{
    if off > 0 {
        lemma_newline_count_bound(b, off - 1);
    }
}

/// A line found by [`nth_line_start`] starts within the text.
proof fn lemma_nth_line_start_bound(b: Seq<u8>, line: nat)
    ensures
        nth_line_start(b, line) matches Some(s) ==> 0 <= s <= b.len(),
    decreases line,
{
    if line > 0 {
        lemma_nth_line_start_bound(b, (line - 1) as nat);
        if let Some(s) = nth_line_start(b, (line - 1) as nat) {
            lemma_first_newline_at_bound(b, s);
        }
    }
}

/// A line feed found from `i` on lies within the text, at or after `i`.
proof fn lemma_first_newline_at_bound(b: Seq<u8>, i: int)
    ensures
        first_newline_at(b, i) matches Some(k) ==> i <= k < b.len(),
    decreases b.len() - i,
{
    if 0 <= i < b.len() && b[i] != 0x0a {
        lemma_first_newline_at_bound(b, i + 1);
    }
}

/// The byte column that a client position's UTF-16 column maps to; zero when
/// it maps to none.
pub open spec fn offset_col(b: Seq<u8>, pos: Position) -> u32 {
    match utf16_to_utf8_col(b, pos.line, pos.character) {
        Some(c) => c,
        None => 0,
    }
}

/// The line start plus that column stays within `u32`.
pub open spec fn offset_fits(b: Seq<u8>, pos: Position) -> bool {
    nth_line_start(b, pos.line as nat) matches Some(s) ==> s + offset_col(b, pos) <= u32::MAX
}

/// The byte offset of a client position: the start of its line plus its
/// column in bytes, zero for a line past the end.
pub open spec fn offset_spec(b: Seq<u8>, pos: Position) -> int {
    match nth_line_start(b, pos.line as nat) {
        Some(s) => s + offset_col(b, pos),
        None => 0,
    }
}

/// Byte offset of a client position; see [`offset_spec`].
///
/// Requires that the offset fits in `u32`, which the index's arithmetic
/// assumes; [`checked_offset_at`] tests that first.
pub fn offset_at(line_index: &LineIndex, position: Position) -> (r: usize)
    requires
        line_index.wf(),
        offset_fits(line_index.bytes(), position),
    ensures
        r == offset_spec(line_index.bytes(), position),
        forall|o: int|
            0 <= o <= line_index.bytes().len() && is_char_boundary(line_index.bytes(), o) && position
                == #[trigger] position_spec(line_index.bytes(), o) ==> r == o,
{
    let text = line_index.text.as_str();
    assert(text.spec_bytes() == line_index.bytes());
    let line_col = match index_to_utf8(text, position.line, position.character) {
        Some(lc) => lc,
        None => (position.line, 0),
    };
    assert(line_col.1 == offset_col(line_index.bytes(), position));
    assert(line_col.0 == position.line);
    proof {
        lemma_round_trip_col(text, position, line_col);
    }
    proof {
        lemma_nth_line_start_bound(text.spec_bytes(), position.line as nat);
    }
    match index_offset(text, line_col.0, line_col.1) {
        Some(o) => o as usize,
        None => 0,
    }
}

/// Where `position` is the position of a character boundary `o`, the byte
/// column that `line_col` (the answer of `index_to_utf8` for it) holds
/// leads back to `o`: its line starts at `o`'s line start `s`, and the
/// column is `o - s`.
proof fn lemma_round_trip_col(text: &str, position: Position, line_col: (u32, u32))
    requires
        text.spec_bytes().len() < u32::MAX,
        nth_line_start(text.spec_bytes(), position.line as nat) matches Some(s) ==> forall|e: int|
            s <= e <= text.spec_bytes().len() && is_char_boundary(text.spec_bytes(), e) && (forall|i: int|
                s <= i < e ==> text.spec_bytes()[i] != 0x0a) && position.character == utf16_len(
                #[trigger] text_between(text.spec_bytes(), s, e),
            ) ==> line_col == (position.line, (e - s) as u32),
    ensures
        forall|o: int|
            0 <= o <= text.spec_bytes().len() && is_char_boundary(text.spec_bytes(), o) && position
                == #[trigger] position_spec(text.spec_bytes(), o) ==> nth_line_start(
                text.spec_bytes(),
                position.line as nat,
            ) == Some(line_start_byte(text.spec_bytes(), o)) && line_col.1 == o - line_start_byte(
                text.spec_bytes(),
                o,
            ),
{
    let b = text.spec_bytes();
    assert forall|o: int|
        0 <= o <= b.len() && is_char_boundary(b, o) && position == #[trigger] position_spec(b, o) implies nth_line_start(
        b,
        position.line as nat,
    ) == Some(line_start_byte(b, o)) && line_col.1 == o - line_start_byte(b, o) by {
        lemma_line_start(b, o);
        lemma_newline_count_bound(b, o);
        let s = line_start_byte(b, o);
        encode_utf8_valid_utf8(text@);
        lemma_line_start_boundary(b, o);
        lemma_subrange_valid(b, s, o);
        decode_utf8_encode_utf8(b.subrange(s, o));
        lemma_utf16_len_bound(text_between(b, s, o));
        assert(position.line == newline_count(b, o));
        assert(position.line as nat == newline_count(b, o));
        assert(nth_line_start(b, position.line as nat) == Some(s));
        assert(utf16_len(text_between(b, s, o)) <= b.len()) by {
            assert(encode_utf8(text_between(b, s, o)) == b.subrange(s, o));
        }
        assert(position.character == utf16_len(text_between(b, s, o)));
        assert(forall|i: int| s <= i < o ==> b[i] != 0x0a);
        assert(s <= o <= b.len() && is_char_boundary(b, o));
        assert(nth_line_start(b, position.line as nat) matches Some(t) && t == s);
        let ghost hyp = s <= o <= b.len() && is_char_boundary(b, o) && (forall|i: int| s <= i < o ==> b[i] != 0x0a)
            && position.character == utf16_len(text_between(b, s, o));
        assert(hyp);
        assert(line_col == (position.line, (o - s) as u32));
    }
}

/// [`offset_at`] where the offset fits in `u32`, else `None`.
pub fn checked_offset_at(line_index: &LineIndex, position: Position) -> (r: Option<usize>)
    requires
        line_index.wf(),
    ensures
        offset_fits(line_index.bytes(), position) ==> (r matches Some(o) && o == offset_spec(line_index.bytes(), position)),
        !offset_fits(line_index.bytes(), position) ==> r is None,
        forall|o: int|
            0 <= o <= line_index.bytes().len() && is_char_boundary(line_index.bytes(), o) && position
                == #[trigger] position_spec(line_index.bytes(), o) ==> r == Some(o as usize),
{
    let text = line_index.text.as_str();
    let lc = index_to_utf8(text, position.line, position.character);
    let col = match lc {
        Some(lc) => lc.1,
        None => 0,
    };
    let ghost line_col = match lc {
        Some(lc) => lc,
        None => (position.line, 0u32),
    };
    proof {
        lemma_round_trip_col(text, position, line_col);
    }
    proof {
        lemma_nth_line_start_bound(text.spec_bytes(), position.line as nat);
    }
    match index_offset(text, position.line, 0) {
        Some(start) => {
            if col as u64 + start as u64 > u32::MAX as u64 {
                return None;
            }
            Some(offset_at(line_index, position))
        },
        None => Some(offset_at(line_index, position)),
    }
}

/// The range of `length` bytes from `offset`.
pub fn span_range(line_index: &LineIndex, offset: usize, length: usize) -> (r: Range)
    requires
        line_index.wf(),
        offset + length <= usize::MAX,
        is_char_boundary(line_index.bytes(), clamp(line_index.bytes(), offset as int)),
        is_char_boundary(line_index.bytes(), clamp(line_index.bytes(), offset + length)),
    ensures
        r.start == position_spec(line_index.bytes(), offset as int),
        r.end == position_spec(line_index.bytes(), offset + length),
{
    Range::new(position_at(line_index, offset), position_at(line_index, offset + length))
}

/// The range of the whole text.
pub fn full_range(line_index: &LineIndex) -> (r: Range)
    requires
        line_index.wf(),
    ensures
        r.start == Position::new_spec(0, 0),
        r.end == position_spec(line_index.bytes(), line_index.bytes().len() as int),
{
    proof {
        encode_utf8_valid_utf8(line_index.text@);
        is_char_boundary_start_end_of_seq(line_index.bytes());
    }
    Range::new(Position::new(0, 0), position_at(line_index, line_index.len() as usize))
}

} // verus!
