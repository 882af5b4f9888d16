//! The runtime's value printing: rendering tagged little-endian bytes as
//! text, and capturing printed output.

use vstd::prelude::*;

use crate::chars::{char_from_u32, string_from_chars};

verus! {

pub const TAG_INT: u8 = 0;
pub const TAG_UINT: u8 = 1;
pub const TAG_FLOAT32: u8 = 2;
pub const TAG_FLOAT64: u8 = 3;
pub const TAG_BOOL: u8 = 4;
pub const TAG_CHAR: u8 = 5;
pub const TAG_RAW: u8 = 255;

/// The unsigned value of little-endian bytes.
pub open spec fn le_value(bytes: Seq<u8>) -> nat
    decreases bytes.len(),
{
    if bytes.len() == 0 {
        0
    } else {
        bytes[0] as nat + 256 * le_value(bytes.skip(1))
    }
}

/// `256` to the power `n`.
pub open spec fn pow256(n: nat) -> nat
    decreases n,
{
    if n == 0 {
        1
    } else {
        256 * pow256((n - 1) as nat)
    }
}

/// The two's-complement value of little-endian bytes.
pub open spec fn le_signed(bytes: Seq<u8>) -> int {
    let v = le_value(bytes);
    if bytes.len() > 0 && 2 * v >= pow256(bytes.len()) {
        v - pow256(bytes.len())
    } else {
        v as int
    }
}

/// The decimal digit for `d < 10`.
pub open spec fn digit(d: nat) -> char {
    if d == 0 {
        '0'
    } else if d == 1 {
        '1'
    } else if d == 2 {
        '2'
    } else if d == 3 {
        '3'
    } else if d == 4 {
        '4'
    } else if d == 5 {
        '5'
    } else if d == 6 {
        '6'
    } else if d == 7 {
        '7'
    } else if d == 8 {
        '8'
    } else {
        '9'
    }
}

/// The decimal notation of `n`, without leading zeros.
pub open spec fn decimal(n: nat) -> Seq<char>
    decreases n,
{
    if n < 10 {
        seq![digit(n)]
    } else {
        decimal(n / 10).push(digit(n % 10))
    }
}

/// The decimal notation of `i`, with a leading `-` when negative.
pub open spec fn signed_decimal(i: int) -> Seq<char> {
    if i < 0 {
        seq!['-'] + decimal((-i) as nat)
    } else {
        decimal(i as nat)
    }
}

/// Byte widths of the integer types: 1, 2, 4, 8 or 16.
pub open spec fn is_int_width(n: nat) -> bool {
    n == 1 || n == 2 || n == 4 || n == 8 || n == 16
}

/// The lower-case hexadecimal digit for `d < 16`.
pub open spec fn hex_digit(d: nat) -> char {
    if d < 10 {
        digit(d)
    } else if d == 10 {
        'a'
    } else if d == 11 {
        'b'
    } else if d == 12 {
        'c'
    } else if d == 13 {
        'd'
    } else if d == 14 {
        'e'
    } else {
        'f'
    }
}

/// Bytes as two lower-case hex digits each, separated by spaces.
pub open spec fn hex_text(bytes: Seq<u8>) -> Seq<char>
    decreases bytes.len(),
{
    if bytes.len() == 0 {
        Seq::empty()
    } else {
        let b = bytes.last();
        let pair = seq![hex_digit((b / 16) as nat), hex_digit((b % 16) as nat)];
        if bytes.len() == 1 {
            pair
        } else {
            hex_text(bytes.drop_last()) + seq![' '] + pair
        }
    }
}

fn digit_char(d: u8) -> (c: char)
    requires
        d < 10,
    ensures
        c == digit(d as nat),
{
    if d == 0 {
        '0'
    } else if d == 1 {
        '1'
    } else if d == 2 {
        '2'
    } else if d == 3 {
        '3'
    } else if d == 4 {
        '4'
    } else if d == 5 {
        '5'
    } else if d == 6 {
        '6'
    } else if d == 7 {
        '7'
    } else if d == 8 {
        '8'
    } else {
        '9'
    }
}

fn hex_char(d: u8) -> (c: char)
    requires
        d < 16,
    ensures
        c == hex_digit(d as nat),
{
    if d < 10 {
        digit_char(d)
    } else if d == 10 {
        'a'
    } else if d == 11 {
        'b'
    } else if d == 12 {
        'c'
    } else if d == 13 {
        'd'
    } else if d == 14 {
        'e'
    } else {
        'f'
    }
}

/// Appends the decimal notation of `n`.
pub fn push_decimal(out: &mut Vec<char>, n: u128)
    ensures
        final(out)@ == old(out)@ + decimal(n as nat),
{
    let mut m = n;
    let mut rev: Vec<char> = Vec::new();
    while m >= 10
        invariant
            decimal(n as nat) == decimal(m as nat) + rev@.reverse(),
        decreases m,
    {
        let d = (m % 10) as u8;
        let ghost before = rev@;
        rev.push(digit_char(d));
        assert(rev@.reverse() =~= seq![digit((m % 10) as nat)] + before.reverse());
        assert(decimal(m as nat) == decimal((m / 10) as nat).push(digit((m % 10) as nat)));
        m = m / 10;
        assert(decimal(n as nat) =~= decimal(m as nat) + rev@.reverse());
    }
    let ghost base = out@;
    out.push(digit_char(m as u8));
    let mut i = rev.len();
    while i > 0
        invariant
            i <= rev@.len(),
            out@ == base + seq![digit(m as nat)] + rev@.reverse().subrange(0, (rev@.len() - i) as int),
        decreases i,
    {
        i = i - 1;
        out.push(rev[i]);
        assert(rev@.reverse()[(rev@.len() - 1 - i) as int] == rev@[i as int]);
        assert(out@ =~= base + seq![digit(m as nat)] + rev@.reverse().subrange(
            0,
            (rev@.len() - i) as int,
        ));
    }
    assert(rev@.reverse().subrange(0, rev@.len() as int) =~= rev@.reverse());
    assert(decimal(m as nat) == seq![digit(m as nat)]);
}

proof fn lemma_pow256_mono(a: nat, b: nat)
    requires
        a <= b,
    ensures
        pow256(a) <= pow256(b),
        pow256(a) >= 1,
    decreases b,
{
    if a < b {
        lemma_pow256_mono(a, (b - 1) as nat);
    }
    if b > 0 {
        lemma_pow256_mono(0, (b - 1) as nat);
    }
}

proof fn lemma_le_value_bound(bytes: Seq<u8>)
    ensures
        le_value(bytes) < pow256(bytes.len()),
    decreases bytes.len(),
{
    if bytes.len() > 0 {
        lemma_le_value_bound(bytes.skip(1));
        assert(le_value(bytes.skip(1)) + 1 <= pow256((bytes.len() - 1) as nat));
        assert(256 * le_value(bytes.skip(1)) + 256 <= 256 * pow256((bytes.len() - 1) as nat))
            by (nonlinear_arith)
            requires
                le_value(bytes.skip(1)) + 1 <= pow256((bytes.len() - 1) as nat),
        ;
    }
}

proof fn lemma_pow256_16()
    ensures
        pow256(16) == 0x1_0000_0000_0000_0000_0000_0000_0000_0000,
        pow256(15) == 0x1000000000000000000000000000000,
        pow256(8) == 0x1_0000_0000_0000_0000,
        pow256(4) == 0x1_0000_0000,
        pow256(2) == 0x1_0000,
        pow256(1) == 0x100,
{
    reveal_with_fuel(pow256, 17);
}

/// The unsigned little-endian value of at most 16 bytes.
fn le_u128(bytes: &[u8]) -> (v: u128)
    requires
        bytes@.len() <= 16,
    ensures
        v == le_value(bytes@),
{
    let mut i = bytes.len();
    let mut v: u128 = 0;
    proof {
        assert(bytes@.skip(bytes@.len() as int) =~= Seq::<u8>::empty());
    }
    while i > 0
        invariant
            i <= bytes@.len() <= 16,
            v == le_value(bytes@.skip(i as int)),
        decreases i,
    {
        proof {
            lemma_le_value_bound(bytes@.skip(i as int));
            lemma_pow256_mono((bytes@.len() - i) as nat, 15);
            lemma_pow256_16();
            reveal_with_fuel(pow256, 16);
        }
        let ghost tail = bytes@.skip(i as int);
        i = i - 1;
        assert(bytes@.skip(i as int).skip(1) =~= tail);
        assert(v * 256 + 255 <= u128::MAX) by (nonlinear_arith)
            requires
                v < pow256(15),
                pow256(15) == 0x1000000000000000000000000000000,
        ;
        v = v * 256 + bytes[i] as u128;
    }
    assert(bytes@.skip(0) =~= bytes@);
    v
}

/// The decimal text of the unsigned little-endian integer in `bytes`, for
/// widths of 1, 2, 4, 8 or 16 bytes.
pub fn format_unsigned(bytes: &[u8]) -> (r: Option<String>)
    ensures
        is_int_width(bytes@.len()) ==> (r matches Some(s) && s@ == decimal(le_value(bytes@))),
        !is_int_width(bytes@.len()) ==> r is None,
{
    let n = bytes.len();
    if !(n == 1 || n == 2 || n == 4 || n == 8 || n == 16) {
        return None;
    }
    let v = le_u128(bytes);
    let mut out: Vec<char> = Vec::new();
    push_decimal(&mut out, v);
    Some(string_from_chars(&out))
}

/// The decimal text of the two's-complement little-endian integer in
/// `bytes`, for widths of 1, 2, 4, 8 or 16 bytes.
pub fn format_signed(bytes: &[u8]) -> (r: Option<String>)
    ensures
        is_int_width(bytes@.len()) ==> (r matches Some(s) && s@ == signed_decimal(
            le_signed(bytes@),
        )),
        !is_int_width(bytes@.len()) ==> r is None,
{
    let n = bytes.len();
    if !(n == 1 || n == 2 || n == 4 || n == 8 || n == 16) {
        return None;
    }
    let v = le_u128(bytes);
    proof {
        lemma_le_value_bound(bytes@);
        lemma_pow256_16();
    }
    let mut out: Vec<char> = Vec::new();
    let half: u128 = if n == 16 {
        0x8000_0000_0000_0000_0000_0000_0000_0000
    } else if n == 8 {
        0x8000_0000_0000_0000
    } else if n == 4 {
        0x8000_0000
    } else if n == 2 {
        0x8000
    } else {
        0x80
    };
    assert(2 * half == pow256(n as nat));
    if v >= half {
        let magnitude: u128 = half - (v - half);
        assert(magnitude == pow256(n as nat) - v);
        out.push('-');
        push_decimal(&mut out, magnitude);
    } else {
        push_decimal(&mut out, v);
    }
    Some(string_from_chars(&out))
}

/// The bytes as two lower-case hex digits each, separated by spaces.
pub fn format_hex(bytes: &[u8]) -> (s: String)
    ensures
        s@ == hex_text(bytes@),
{
    let mut out: Vec<char> = Vec::new();
    let mut i: usize = 0;
    while i < bytes.len()
        invariant
            i <= bytes@.len(),
            out@ == hex_text(bytes@.take(i as int)),
        decreases bytes.len() - i,
    {
        assert(bytes@.take(i + 1).drop_last() =~= bytes@.take(i as int));
        if i > 0 {
            out.push(' ');
        }
        let b = bytes[i];
        out.push(hex_char(b / 16));
        out.push(hex_char(b % 16));
        assert(out@ =~= hex_text(bytes@.take(i + 1)));
        i += 1;
    }
    assert(bytes@.take(bytes@.len() as int) =~= bytes@);
    string_from_chars(&out)
}

/// What a printed value renders as. Floating-point values are rendered by
/// the caller from their bits.
#[derive(Debug)]
pub enum Rendered {
    Text(String),
    Float32Bits(u32),
    Float64Bits(u64),
}

/// The characters of `bool::to_string`.
pub open spec fn bool_text(b: bool) -> Seq<char> {
    if b {
        seq!['t', 'r', 'u', 'e']
    } else {
        seq!['f', 'a', 'l', 's', 'e']
    }
}

/// How a tagged value renders: integers in decimal (when their width is an
/// integer width), floats by their bits, a boolean by its first byte
/// (absent: false), a character from its first four bytes when they hold a
/// Unicode scalar value, and everything else as hex bytes.
pub open spec fn rendered_as(bytes: Seq<u8>, tag: u8, r: Rendered) -> bool {
    if tag == TAG_INT && is_int_width(bytes.len()) {
        r matches Rendered::Text(s) && s@ == signed_decimal(le_signed(bytes))
    } else if tag == TAG_UINT && is_int_width(bytes.len()) {
        r matches Rendered::Text(s) && s@ == decimal(le_value(bytes))
    } else if tag == TAG_FLOAT32 && bytes.len() >= 4 {
        r == Rendered::Float32Bits(le_value(bytes.take(4)) as u32)
    } else if tag == TAG_FLOAT64 && bytes.len() >= 8 {
        r == Rendered::Float64Bits(le_value(bytes.take(8)) as u64)
    } else if tag == TAG_BOOL {
        r matches Rendered::Text(s) && s@ == bool_text(bytes.len() > 0 && bytes[0] != 0)
    } else if tag == TAG_CHAR && bytes.len() >= 4 && vstd::utf8::is_scalar(
        le_value(bytes.take(4)) as u32,
    ) {
        r matches Rendered::Text(s) && s@.len() == 1 && s@[0] as u32 == le_value(bytes.take(4))
    } else {
        r matches Rendered::Text(s) && s@ == hex_text(bytes)
    }
}

/// Renders a value of the runtime's print call: `bytes` holds the value in
/// little-endian order and `tag` says how to read it.
pub fn render_value(bytes: &[u8], tag: u8) -> (r: Rendered)
    ensures
        rendered_as(bytes@, tag, r),
{
    if tag == TAG_INT && (bytes.len() == 1 || bytes.len() == 2 || bytes.len() == 4 || bytes.len()
        == 8 || bytes.len() == 16) {
        match format_signed(bytes) {
            Some(s) => Rendered::Text(s),
            None => Rendered::Text(format_hex(bytes)),
        }
    } else if tag == TAG_UINT && (bytes.len() == 1 || bytes.len() == 2 || bytes.len() == 4
        || bytes.len() == 8 || bytes.len() == 16) {
        match format_unsigned(bytes) {
            Some(s) => Rendered::Text(s),
            None => Rendered::Text(format_hex(bytes)),
        }
    } else if tag == TAG_FLOAT32 && bytes.len() >= 4 {
        let head = vstd::slice::slice_subrange(bytes, 0, 4);
        assert(head@ =~= bytes@.take(4));
        proof {
            lemma_le_value_bound(head@);
            lemma_pow256_16();
        }
        Rendered::Float32Bits(le_u128(head) as u32)
    } else if tag == TAG_FLOAT64 && bytes.len() >= 8 {
        let head = vstd::slice::slice_subrange(bytes, 0, 8);
        assert(head@ =~= bytes@.take(8));
        proof {
            lemma_le_value_bound(head@);
            lemma_pow256_16();
        }
        Rendered::Float64Bits(le_u128(head) as u64)
    } else if tag == TAG_BOOL {
        let mut out: Vec<char> = Vec::new();
        if bytes.len() > 0 && bytes[0] != 0 {
            out.push('t');
            out.push('r');
            out.push('u');
            out.push('e');
        } else {
            out.push('f');
            out.push('a');
            out.push('l');
            out.push('s');
            out.push('e');
        }
        assert(out@ =~= bool_text(bytes@.len() > 0 && bytes@[0] != 0));
        Rendered::Text(string_from_chars(&out))
    } else if tag == TAG_CHAR && bytes.len() >= 4 {
        let head = vstd::slice::slice_subrange(bytes, 0, 4);
        assert(head@ =~= bytes@.take(4));
        proof {
            lemma_le_value_bound(head@);
            lemma_pow256_16();
        }
        let code = le_u128(head) as u32;
        match char_from_u32(code) {
            Some(c) => {
                let mut out: Vec<char> = Vec::new();
                out.push(c);
                Rendered::Text(string_from_chars(&out))
            },
            None => Rendered::Text(format_hex(bytes)),
        }
    } else {
        Rendered::Text(format_hex(bytes))
    }
}

/// Captured program output: while capturing, printed text is collected
/// instead of written to standard output.
pub struct OutputCapture {
    capturing: bool,
    output: Vec<char>,
}

impl OutputCapture {
    /// Whether printed text is being collected.
    pub closed spec fn is_capturing(&self) -> bool {
        self.capturing
    }

    /// The text collected so far.
    pub closed spec fn captured(&self) -> Seq<char> {
        self.output@
    }

    /// No capture in progress and nothing collected.
    pub fn new() -> (c: Self)
        ensures
            !c.is_capturing(),
            c.captured().len() == 0,
    {
        OutputCapture { capturing: false, output: Vec::new() }
    }

    /// Delivers the text of one print call: while capturing it is appended
    /// (with a line feed when `newline` is non-zero) and `None` comes back;
    /// otherwise the text comes back for the caller to print, followed by a
    /// line break when `newline` is non-zero.
    pub fn deliver(&mut self, text: &Vec<char>, newline: u8) -> (printed: Option<(Vec<char>, bool)>)
        ensures
            final(self).is_capturing() == old(self).is_capturing(),
            old(self).is_capturing() ==> printed is None && final(self).captured() == captured_after(
                old(self).captured(),
                text@,
                newline != 0,
            ),
            !old(self).is_capturing() ==> (printed matches Some((t, nl)) && t@ == text@ && nl == (
            newline != 0) && final(self).captured() == old(self).captured()),
    {
        if self.capturing {
            let mut i: usize = 0;
            let ghost base = self.output@;
            while i < text.len()
                invariant
                    i <= text@.len(),
                    self.capturing,
                    self.output@ == base + text@.subrange(0, i as int),
                decreases text.len() - i,
            {
                self.output.push(text[i]);
                i += 1;
                assert(self.output@ =~= base + text@.subrange(0, i as int));
            }
            assert(text@.subrange(0, text@.len() as int) =~= text@);
            if newline != 0 {
                self.output.push('\n');
            }
            None
        } else {
            let mut copy: Vec<char> = Vec::new();
            let mut i: usize = 0;
            while i < text.len()
                invariant
                    i <= text@.len(),
                    copy@ == text@.subrange(0, i as int),
                decreases text.len() - i,
            {
                copy.push(text[i]);
                i += 1;
                assert(copy@ =~= text@.subrange(0, i as int));
            }
            assert(text@.subrange(0, text@.len() as int) =~= text@);
            Some((copy, newline != 0))
        }
    }
}

/// Starts collecting printed output instead of writing it.
pub fn begin_capture(capture: &mut OutputCapture)
    ensures
        final(capture).is_capturing(),
        final(capture).captured() == old(capture).captured(),
{
    capture.capturing = true;
}

/// Stops collecting and hands back everything collected, leaving the
/// collection empty.
pub fn take_output(capture: &mut OutputCapture) -> (s: String)
    ensures
        !final(capture).is_capturing(),
        final(capture).captured().len() == 0,
        s@ == old(capture).captured(),
{
    capture.capturing = false;
    let mut taken: Vec<char> = Vec::new();
    std::mem::swap(&mut taken, &mut capture.output);
    string_from_chars(&taken)
}

/// What a capturing print call leaves collected: what was there, the
/// text, and a line feed when one was asked for.
pub open spec fn captured_after(before: Seq<char>, text: Seq<char>, newline: bool) -> Seq<char> {
    before + text + if newline {
        seq!['\n']
    } else {
        Seq::empty()
    }
}

/// What a series of capturing print calls leaves collected, from `start`.
pub open spec fn capture_all(start: Seq<char>, calls: Seq<(Seq<char>, bool)>) -> Seq<char>
    decreases calls.len(),
{
    if calls.len() == 0 {
        start
    } else {
        captured_after(capture_all(start, calls.drop_last()), calls.last().0, calls.last().1)
    }
}

/// The printed output of a series of print calls: each text, followed by
/// a line feed where one was asked for.
pub open spec fn printed_text(calls: Seq<(Seq<char>, bool)>) -> Seq<char>
    decreases calls.len(),
{
    if calls.len() == 0 {
        Seq::empty()
    } else {
        printed_text(calls.drop_last()) + calls.last().0 + if calls.last().1 {
            seq!['\n']
        } else {
            Seq::empty()
        }
    }
}

/// What [`take_output`] hands back after [`begin_capture`] on an empty
/// capture and a series of print calls is exactly their printed output.
pub proof fn law_capture_round_trip(calls: Seq<(Seq<char>, bool)>)
    ensures
        capture_all(Seq::empty(), calls) == printed_text(calls),
    decreases calls.len(),
{
    if calls.len() > 0 {
        law_capture_round_trip(calls.drop_last());
        assert(captured_after(printed_text(calls.drop_last()), calls.last().0, calls.last().1)
            =~= printed_text(calls));
    }
}

/// A printed integer of 1, 2, 4, 8 or 16 bytes is written in decimal: the
/// signed value of its little-endian two's-complement bytes for `TAG_INT`,
/// the unsigned value for `TAG_UINT`. No integer width falls back to hex.
pub proof fn law_integers_print_in_decimal(bytes: Seq<u8>, r: Rendered)
    requires
        bytes.len() == 1 || bytes.len() == 2 || bytes.len() == 4 || bytes.len() == 8 || bytes.len() == 16,
    ensures
        rendered_as(bytes, TAG_INT, r) ==> (r matches Rendered::Text(s) && s@ == signed_decimal(le_signed(bytes))),
        rendered_as(bytes, TAG_UINT, r) ==> (r matches Rendered::Text(s) && s@ == decimal(le_value(bytes))),
{
}

} // verus!
