//! Rendering of a diagnostic's source excerpt in the style of `rustc`:
//! numbered lines, each followed by a marker line under every label that
//! touches it, optionally coloured with ANSI escapes.

use vstd::prelude::*;
use vstd::string::StringSliceAdditionalSpecFns;
use vstd::utf8::*;

use crate::chars::{chars_of, string_from_chars};
use crate::codegen::runtime::{decimal, push_decimal};
use crate::lsp::text::{lemma_encode_concat, newline_from, lemma_newline_from, range_byte_len};

verus! {

/// A labelled byte span of a diagnostic.
#[derive(Debug)]
pub struct LabeledSpan {
    pub offset: usize,
    pub len: usize,
    pub label: Option<String>,
}

/// `text` wrapped in the ANSI escape for `code` when `enabled`.
pub open spec fn colored(text: Seq<char>, code: Seq<char>, enabled: bool) -> Seq<char> {
    if enabled {
        seq!['\x1b', '['] + code + seq!['m'] + text + seq!['\x1b', '[', '0', 'm']
    } else {
        text
    }
}

/// Appends `s` to `out`.
fn append(out: &mut Vec<char>, s: &Vec<char>)
    ensures
        final(out)@ == old(out)@ + s@,
{
    let ghost start = out@;
    let mut i: usize = 0;
    while i < s.len()
        invariant
            i <= s@.len(),
            out@ == start + s@.take(i as int),
        decreases s.len() - i,
    {
        out.push(s[i]);
        i += 1;
        assert(out@ =~= start + s@.take(i as int));
    }
    assert(s@.take(i as int) =~= s@);
}

/// Appends [`colored`] text.
fn push_colored(out: &mut Vec<char>, text: &Vec<char>, code: &Vec<char>, enabled: bool)
    ensures
        final(out)@ == old(out)@ + colored(text@, code@, enabled),
{
    let ghost start = out@;
    if enabled {
        out.push('\x1b');
        out.push('[');
        append(out, code);
        out.push('m');
        append(out, text);
        out.push('\x1b');
        out.push('[');
        out.push('0');
        out.push('m');
        assert(out@ =~= start + colored(text@, code@, enabled));
    } else {
        append(out, text);
    }
}

/// Wraps `text` in the ANSI escape for `code` when `enabled`.
pub fn color(text: &str, code: &str, enabled: bool) -> (r: String)
    ensures
        r@ == colored(text@, code@, enabled),
{
    let mut out: Vec<char> = Vec::new();
    push_colored(&mut out, &chars_of(text), &chars_of(code), enabled);
    assert(out@ =~= colored(text@, code@, enabled));
    string_from_chars(&out)
}

/// `n` spaces.
pub open spec fn spaces(n: nat) -> Seq<char> {
    Seq::new(n, |i: int| ' ')
}

/// `n` carets.
pub open spec fn carets(n: nat) -> Seq<char> {
    Seq::new(n, |i: int| '^')
}

/// `s` right-aligned in a field of `width` characters.
pub open spec fn pad_left(s: Seq<char>, width: nat) -> Seq<char> {
    if s.len() >= width {
        s
    } else {
        spaces((width - s.len()) as nat) + s
    }
}

/// Appends `n` copies of `c`.
fn push_repeat(out: &mut Vec<char>, c: char, n: usize)
    ensures
        final(out)@ == old(out)@ + Seq::new(n as nat, |i: int| c),
{
    let ghost start = out@;
    let mut i: usize = 0;
    while i < n
        invariant
            i <= n,
            out@ == start + Seq::new(i as nat, |k: int| c),
        decreases n - i,
    {
        out.push(c);
        i += 1;
        assert(out@ =~= start + Seq::new(i as nat, |k: int| c));
    }
}

/// The line of `s` that starts at `start`, as `str::split_inclusive('\n')`
/// yields it: up to and including the next line feed, or to the end.
pub open spec fn line_at(s: Seq<char>, start: int) -> Seq<char> {
    match newline_from(s, start) {
        Some(k) => s.subrange(start, k + 1),
        None => s.skip(start),
    }
}

/// Where the line after the one starting at `start` starts.
pub open spec fn next_line(s: Seq<char>, start: int) -> int {
    match newline_from(s, start) {
        Some(k) => k + 1,
        None => s.len() as int,
    }
}

/// A line without its line feed and then without a carriage return.
pub open spec fn line_text(line: Seq<char>) -> Seq<char> {
    let t = if line.len() > 0 && line.last() == '\n' { line.drop_last() } else { line };
    if t.len() > 0 && t.last() == '\r' {
        t.drop_last()
    } else {
        t
    }
}

/// Length in bytes of the UTF-8 encoding.
pub open spec fn byte_len(s: Seq<char>) -> int {
    encode_utf8(s).len() as int
}

/// `a - b`, or zero when `b` is larger.
pub open spec fn sat_sub(a: int, b: int) -> int {
    if a > b {
        a - b
    } else {
        0
    }
}

/// The smaller of two values.
pub open spec fn min_int(a: int, b: int) -> int {
    if a < b {
        a
    } else {
        b
    }
}

/// What a label's text is: its label, or nothing.
pub open spec fn label_chars(l: LabeledSpan) -> Seq<char> {
    match l.label {
        Some(s) => s@,
        None => Seq::empty(),
    }
}

/// The marker line of a label under a line of text `text` that starts at
/// byte `line_start`; empty when the label does not touch the line.
pub open spec fn marker_line(l: LabeledSpan, text: Seq<char>, line_start: int, width: nat, colors: bool) -> Seq<char> {
    let line_end = line_start + byte_len(text);
    let label_start = l.offset as int;
    let label_end = l.offset + l.len;
    if label_start > line_end || label_end < line_start {
        Seq::empty()
    } else {
        let marker_start = min_int(sat_sub(label_start, line_start), byte_len(text));
        let marker_end = min_int(sat_sub(label_end, line_start), byte_len(text));
        let marker_len = if sat_sub(marker_end, marker_start) > 1 { sat_sub(marker_end, marker_start) } else { 1 };
        marker_body(width, (marker_start + 1) as nat, marker_len as nat, label_chars(l), colors)
    }
}

/// A marker line: the gutter, `indent` spaces, `len` carets and the label.
pub open spec fn marker_body(width: nat, indent: nat, len: nat, label: Seq<char>, colors: bool) -> Seq<char> {
    spaces(width) + seq![' '] + colored(seq!['|'], seq!['3', '4'], colors) + seq![' '] + spaces(indent)
        + colored(carets(len), seq!['3', '1'], colors) + seq![' '] + colored(label, seq!['3', '1'], colors) + seq!['\n']
}

/// The marker lines of `labels[0..n]` under one line.
pub open spec fn marker_lines(labels: Seq<LabeledSpan>, n: int, text: Seq<char>, line_start: int, width: nat, colors: bool) -> Seq<char>
    decreases if n > 0 { n } else { 0 },
{
    if n <= 0 || n > labels.len() {
        Seq::empty()
    } else {
        marker_lines(labels, n - 1, text, line_start, width, colors) + marker_line(labels[n - 1], text, line_start, width, colors)
    }
}

/// A numbered source line.
pub open spec fn numbered_line(number: nat, text: Seq<char>, width: nat, colors: bool) -> Seq<char> {
    colored(pad_left(decimal(number), width), seq!['3', '4'], colors) + seq![' '] + colored(
        seq!['|'],
        seq!['3', '4'],
        colors,
    ) + seq![' '] + text + seq!['\n']
}

/// The excerpt from the line starting at character `pos` on: each line
/// numbered from `number`, followed by the marker lines of the labels that
/// touch it; `line_start` is the byte offset of the line in its file.
pub open spec fn render_from(
    s: Seq<char>,
    pos: int,
    number: nat,
    line_start: int,
    labels: Seq<LabeledSpan>,
    width: nat,
    colors: bool,
) -> Seq<char>
    decreases s.len() - pos,
{
    if pos < 0 || pos >= s.len() {
        Seq::empty()
    } else {
        proof {
            lemma_newline_from(s, pos);
        }
        let line = line_at(s, pos);
        numbered_line(number, line_text(line), width, colors) + marker_lines(
            labels,
            labels.len() as int,
            line_text(line),
            line_start,
            width,
            colors,
        ) + render_from(s, next_line(s, pos), number + 1, line_start + byte_len(line), labels, width, colors)
    }
}

/// The rendering of an excerpt `source` that starts at byte `source_start`
/// of its file, on zero-based line `line`, spanning `line_count` lines: the
/// line numbers are right-aligned to the width of the last one.
pub open spec fn render_spec(
    source: Seq<char>,
    source_start: int,
    line: nat,
    line_count: nat,
    labels: Seq<LabeledSpan>,
    colors: bool,
) -> Seq<char> {
    let first = line + 1;
    let last = first + sat_sub(line_count as int, 1);
    render_from(source, 0, first, source_start, labels, decimal(last as nat).len(), colors)
}

/// Appends [`numbered_line`].
fn push_numbered_line(out: &mut Vec<char>, number: usize, text: &Vec<char>, width: usize, colors: bool)
    ensures
        final(out)@ == old(out)@ + numbered_line(number as nat, text@, width as nat, colors),
{
    let ghost start = out@;
    let mut digits: Vec<char> = Vec::new();
    push_decimal(&mut digits, number as u128);
    assert(digits@ =~= decimal(number as nat));
    let mut padded: Vec<char> = Vec::new();
    if digits.len() < width {
        push_repeat(&mut padded, ' ', width - digits.len());
    }
    append(&mut padded, &digits);
    assert(padded@ =~= pad_left(decimal(number as nat), width as nat));
    let blue = vec!['3', '4'];
    let bar = vec!['|'];
    push_colored(out, &padded, &blue, colors);
    out.push(' ');
    push_colored(out, &bar, &blue, colors);
    out.push(' ');
    append(out, text);
    out.push('\n');
    assert(out@ =~= start + numbered_line(number as nat, text@, width as nat, colors));
}

/// Appends [`marker_line`].
#[verifier::spinoff_prover]
#[verifier::rlimit(60)]
fn push_marker_line(out: &mut Vec<char>, l: &LabeledSpan, text: &Vec<char>, text_len: usize, line_start: usize, width: usize, colors: bool)
    requires
        text_len == byte_len(text@),
        line_start + text_len < usize::MAX,
        l.offset + l.len <= usize::MAX,
    ensures
        final(out)@ == old(out)@ + marker_line(*l, text@, line_start as int, width as nat, colors),
{
    let ghost start = out@;
    let line_end = line_start + text_len;
    let label_start = l.offset;
    let label_end = l.offset + l.len;
    if label_start > line_end || label_end < line_start {
        assert(out@ =~= start + marker_line(*l, text@, line_start as int, width as nat, colors));
        return;
    }
    let s0 = if label_start > line_start { label_start - line_start } else { 0 };
    let marker_start = if s0 < text_len { s0 } else { text_len };
    let e0 = if label_end > line_start { label_end - line_start } else { 0 };
    let marker_end = if e0 < text_len { e0 } else { text_len };
    let span = if marker_end > marker_start { marker_end - marker_start } else { 0 };
    let marker_len = if span > 1 { span } else { 1 };
    let label_text = match &l.label {
        Some(t) => chars_of(t.as_str()),
        None => Vec::new(),
    };
    assert(label_text@ =~= label_chars(*l));
    push_marker_body(out, width, marker_start + 1, marker_len, &label_text, colors);
}

/// Appends [`marker_body`].
fn push_marker_body(out: &mut Vec<char>, width: usize, indent: usize, len: usize, label: &Vec<char>, colors: bool)
    ensures
        final(out)@ == old(out)@ + marker_body(width as nat, indent as nat, len as nat, label@, colors),
{
    let ghost start = out@;
    let blue = vec!['3', '4'];
    let red = vec!['3', '1'];
    let bar = vec!['|'];
    let mut head: Vec<char> = Vec::new();
    push_repeat(&mut head, ' ', width);
    head.push(' ');
    push_colored(&mut head, &bar, &blue, colors);
    head.push(' ');
    assert(Seq::new(width as nat, |i: int| ' ') =~= spaces(width as nat));
    assert(head@ =~= spaces(width as nat) + seq![' '] + colored(seq!['|'], seq!['3', '4'], colors) + seq![' ']);
    let mut tail: Vec<char> = Vec::new();
    push_repeat(&mut tail, ' ', indent);
    assert(Seq::new(indent as nat, |i: int| ' ') =~= spaces(indent as nat));
    let mut marker: Vec<char> = Vec::new();
    push_repeat(&mut marker, '^', len);
    assert(marker@ =~= carets(len as nat));
    push_colored(&mut tail, &marker, &red, colors);
    tail.push(' ');
    push_colored(&mut tail, label, &red, colors);
    tail.push('\n');
    assert(tail@ =~= spaces(indent as nat) + colored(carets(len as nat), seq!['3', '1'], colors) + seq![' ']
        + colored(label@, seq!['3', '1'], colors) + seq!['\n']);
    append(out, &head);
    append(out, &tail);
    assert(out@ =~= start + marker_body(width as nat, indent as nat, len as nat, label@, colors));
}

/// Appends the numbered line starting at `pos` and the marker lines under
/// it; gives where the next line starts and the line's length in bytes.
#[verifier::spinoff_prover]
#[verifier::rlimit(60)]
fn push_line_block(
    out: &mut Vec<char>,
    cs: &Vec<char>,
    pos: usize,
    number: usize,
    line_start: usize,
    nbytes: usize,
    labels: &[LabeledSpan],
    width: usize,
    colors: bool,
) -> (r: (usize, usize))
    requires
        pos < cs@.len(),
        nbytes == byte_len(cs@),
        line_start == byte_len(cs@.subrange(0, pos as int)) + (line_start - byte_len(cs@.subrange(0, pos as int))),
        line_start >= byte_len(cs@.subrange(0, pos as int)),
        line_start - byte_len(cs@.subrange(0, pos as int)) + nbytes < usize::MAX,
        forall|j: int| 0 <= j < labels@.len() ==> #[trigger] labels@[j].offset + labels@[j].len <= usize::MAX,
    ensures
        r.0 == next_line(cs@, pos as int),
        pos < r.0 <= cs@.len(),
        r.1 == byte_len(line_at(cs@, pos as int)),
        byte_len(cs@.subrange(0, r.0 as int)) == byte_len(cs@.subrange(0, pos as int)) + r.1,
        byte_len(cs@.subrange(0, r.0 as int)) <= nbytes,
        final(out)@ == old(out)@ + numbered_line(number as nat, line_text(line_at(cs@, pos as int)), width as nat, colors)
            + marker_lines(labels@, labels@.len() as int, line_text(line_at(cs@, pos as int)), line_start as int, width as nat, colors),
{
    let mut k = pos;
    while k < cs.len() && cs[k] != '\n'
        invariant
            pos <= k <= cs@.len(),
            newline_from(cs@, pos as int) == newline_from(cs@, k as int),
        decreases cs.len() - k,
    {
        k += 1;
    }
    let next = if k < cs.len() { k + 1 } else { cs.len() };
    assert(next as int == next_line(cs@, pos as int));
    let piece = crate::lsp::text::copy_range(cs, pos, next);
    assert(piece@ =~= line_at(cs@, pos as int));
    proof {
        lemma_encode_concat(cs@.subrange(0, pos as int), piece@);
        assert(cs@.subrange(0, pos as int) + piece@ =~= cs@.subrange(0, next as int));
        lemma_encode_concat(cs@.subrange(0, next as int), cs@.subrange(next as int, cs@.len() as int));
        assert(cs@.subrange(0, next as int) + cs@.subrange(next as int, cs@.len() as int) =~= cs@);
        assert(piece@ =~= cs@.subrange(pos as int, next as int));
    }
    let piece_len = range_byte_len(cs, pos, next, nbytes);
    let mut text = crate::lsp::text::copy_range(&piece, 0, piece.len());
    if text.len() > 0 && text[text.len() - 1] == '\n' {
        text.pop();
    }
    if text.len() > 0 && text[text.len() - 1] == '\r' {
        text.pop();
    }
    assert(text@ =~= line_text(piece@));
    proof {
        lemma_encode_concat(text@, piece@.skip(text@.len() as int));
        assert(text@ + piece@.skip(text@.len() as int) =~= piece@);
        assert(text@ =~= cs@.subrange(pos as int, pos + text@.len()));
    }
    let text_len = range_byte_len(cs, pos, pos + text.len(), nbytes);
    push_numbered_line(out, number, &text, width, colors);
    let mut j: usize = 0;
    let ghost base = out@;
    while j < labels.len()
        invariant
            j <= labels@.len(),
            forall|m: int| 0 <= m < labels@.len() ==> #[trigger] labels@[m].offset + labels@[m].len <= usize::MAX,
            text_len == byte_len(text@),
            line_start + text_len < usize::MAX,
            out@ == base + marker_lines(labels@, j as int, text@, line_start as int, width as nat, colors),
        decreases labels.len() - j,
    {
        push_marker_line(out, &labels[j], &text, text_len, line_start, width, colors);
        j += 1;
    }
    (next, piece_len)
}

/// Renders the source excerpt of a diagnostic; see [`render_spec`].
pub fn render_source(source: &str, source_start: usize, line: usize, line_count: usize, labels: &[LabeledSpan], colors: bool) -> (r: String)
    requires
        source_start + byte_len(source@) < usize::MAX,
        line + line_count + source@.len() + 2 <= usize::MAX,
        forall|j: int| 0 <= j < labels@.len() ==> #[trigger] labels@[j].offset + labels@[j].len <= usize::MAX,
    ensures
        r@ == render_spec(source@, source_start as int, line as nat, line_count as nat, labels@, colors),
{
    let cs = chars_of(source);
    let nbytes = source.as_bytes().len();
    let ghost full_len = byte_len(cs@);
    assert(nbytes == full_len);
    let first = line + 1;
    let last = first + if line_count > 0 { line_count - 1 } else { 0 };
    let mut last_digits: Vec<char> = Vec::new();
    push_decimal(&mut last_digits, last as u128);
    let width = last_digits.len();
    assert(last_digits@ =~= decimal(last as nat));
    let ghost total = render_spec(source@, source_start as int, line as nat, line_count as nat, labels@, colors);
    let mut out: Vec<char> = Vec::new();
    let mut pos: usize = 0;
    let mut number = first;
    let mut line_start = source_start;
    proof {
        assert(cs@.subrange(0, 0) =~= Seq::<char>::empty());
        lemma_encode_concat(cs@.subrange(0, 0), cs@);
    }
    while pos < cs.len()
        invariant
            pos <= cs@.len(),
            cs@ == source@,
            full_len == byte_len(cs@),
            nbytes == full_len,
            source_start + full_len < usize::MAX,
            line + line_count + cs@.len() + 2 <= usize::MAX,
            forall|j: int| 0 <= j < labels@.len() ==> #[trigger] labels@[j].offset + labels@[j].len <= usize::MAX,
            number <= first + pos,
            first == line + 1,
            width == decimal(last as nat).len(),
            line_start == source_start + byte_len(cs@.subrange(0, pos as int)),
            byte_len(cs@.subrange(0, pos as int)) <= full_len,
            total == render_spec(source@, source_start as int, line as nat, line_count as nat, labels@, colors),
            out@ + render_from(cs@, pos as int, number as nat, line_start as int, labels@, width as nat, colors) == total,
        decreases cs.len() - pos,
    {
        let ghost before = out@;
        let (next, piece_len) = push_line_block(&mut out, &cs, pos, number, line_start, nbytes, labels, width, colors);
        proof {
            crate::lsp::text::lemma_newline_from(cs@, pos as int);
            assert(out@ + render_from(cs@, next as int, (number + 1) as nat, line_start + piece_len, labels@, width as nat, colors) =~= before
                + render_from(cs@, pos as int, number as nat, line_start as int, labels@, width as nat, colors));
        }
        line_start = line_start + piece_len;
        number = number + 1;
        pos = next;
    }
    assert(out@ =~= total);
    string_from_chars(&out)
}

/// How serious a diagnostic is.
#[derive(Debug, Clone, Copy, PartialEq, Eq, Structural)]
pub enum Severity {
    Error,
    Warning,
    Advice,
}

/// The word and colour code of a severity; no severity reads as an error.
pub open spec fn severity_style(s: Option<Severity>) -> (Seq<char>, Seq<char>) {
    match s {
        Some(Severity::Warning) => ("warning"@, "33"@),
        Some(Severity::Advice) => ("advice"@, "36"@),
        _ => ("error"@, "31"@),
    }
}

/// The source excerpt of a diagnostic: the source's name, the zero-based
/// line and column of its first label, and the excerpt's text with where
/// it starts in the file and how many lines it spans.
#[derive(Debug)]
pub struct Excerpt {
    pub name: Option<String>,
    pub line: usize,
    pub column: usize,
    pub source: String,
    pub source_start: usize,
    pub line_count: usize,
}

/// The excerpt part of a report: the location arrow, then the rendered
/// source between two gutter lines.
pub open spec fn excerpt_part(e: Excerpt, labels: Seq<LabeledSpan>, colors: bool) -> Seq<char> {
    let name = match e.name {
        Some(n) => n@,
        None => "<source>"@,
    };
    seq![' '] + colored(
        "--> "@ + name + seq![':'] + decimal((e.line + 1) as nat) + seq![':'] + decimal((e.column + 1) as nat),
        "36"@,
        colors,
    ) + seq!['\n'] + colored("  |"@, "34"@, colors) + seq!['\n'] + render_spec(
        e.source@,
        e.source_start as int,
        e.line as nat,
        e.line_count as nat,
        labels,
        colors,
    ) + colored("  |"@, "34"@, colors) + seq!['\n']
}

/// A whole report in the style of `rustc`: severity and code, message,
/// the excerpt when there is one, then help and note lines.
pub open spec fn report_spec(
    severity: Option<Severity>,
    code: Option<Seq<char>>,
    message: Seq<char>,
    excerpt: Option<Excerpt>,
    labels: Seq<LabeledSpan>,
    help: Option<Seq<char>>,
    url: Option<Seq<char>>,
    colors: bool,
) -> Seq<char> {
    header_part(severity, code, message, colors) + match excerpt {
        Some(e) => excerpt_part(e, labels, colors),
        None => Seq::empty(),
    } + match help {
        Some(h) => note_part("help"@, "32"@, h, colors),
        None => Seq::empty(),
    } + match url {
        Some(u) => note_part("note"@, "36"@, u, colors),
        None => Seq::empty(),
    }
}

/// The first line of a report: severity, code in brackets, message.
pub open spec fn header_part(severity: Option<Severity>, code: Option<Seq<char>>, message: Seq<char>, colors: bool) -> Seq<char> {
    let (word, color_code) = severity_style(severity);
    colored(word, color_code, colors) + match code {
        Some(c) => colored(seq!['['] + c + seq![']'], "1"@, colors),
        None => Seq::empty(),
    } + ": "@ + message + seq!['\n']
}

/// A trailing `  = word: text` line.
pub open spec fn note_part(word: Seq<char>, code: Seq<char>, text: Seq<char>, colors: bool) -> Seq<char> {
    "  = "@ + colored(word, code, colors) + ": "@ + text + seq!['\n']
}

/// Appends the characters of a string slice.
fn push_str(out: &mut Vec<char>, s: &str)
    ensures
        final(out)@ == old(out)@ + s@,
{
    append(out, &chars_of(s));
}

/// Renders a diagnostic report; see [`report_spec`]. `labels` are all the
/// labels of the diagnostic, marked under the excerpt.
pub fn render_report(
    severity: Option<Severity>,
    code: Option<&str>,
    message: &str,
    excerpt: Option<&Excerpt>,
    labels: &[LabeledSpan],
    help: Option<&str>,
    url: Option<&str>,
    colors: bool,
) -> (r: String)
    requires
        excerpt matches Some(e) ==> {
            &&& e.line + 1 <= usize::MAX
            &&& e.column + 1 <= usize::MAX
            &&& e.source_start + byte_len(e.source@) < usize::MAX
            &&& e.line + e.line_count + e.source@.len() + 2 <= usize::MAX
        },
        forall|j: int| 0 <= j < labels@.len() ==> #[trigger] labels@[j].offset + labels@[j].len <= usize::MAX,
    ensures
        r@ == report_spec(
            severity,
            match code {
                Some(c) => Some(c@),
                None => None,
            },
            message@,
            match excerpt {
                Some(e) => Some(*e),
                None => None,
            },
            labels@,
            match help {
                Some(h) => Some(h@),
                None => None,
            },
            match url {
                Some(u) => Some(u@),
                None => None,
            },
            colors,
        ),
{
    let mut out: Vec<char> = Vec::new();
    push_header(&mut out, severity, code, message, colors);
    let ghost head = out@;
    match excerpt {
        Some(e) => push_excerpt(&mut out, e, labels, colors),
        None => {},
    }
    let ghost with_excerpt = out@;
    match help {
        Some(h) => push_note(&mut out, "help", "32", h, colors),
        None => {},
    }
    let ghost with_help = out@;
    match url {
        Some(u) => push_note(&mut out, "note", "36", u, colors),
        None => {},
    }
    assert(out@ =~= report_spec(
        severity,
        match code {
            Some(c) => Some(c@),
            None => None,
        },
        message@,
        match excerpt {
            Some(e) => Some(*e),
            None => None,
        },
        labels@,
        match help {
            Some(h) => Some(h@),
            None => None,
        },
        match url {
            Some(u) => Some(u@),
            None => None,
        },
        colors,
    ));
    string_from_chars(&out)
}

/// Appends [`header_part`].
fn push_header(out: &mut Vec<char>, severity: Option<Severity>, code: Option<&str>, message: &str, colors: bool)
    ensures
        final(out)@ == old(out)@ + header_part(
            severity,
            match code {
                Some(c) => Some(c@),
                None => None,
            },
            message@,
            colors,
        ),
{
    let ghost start = out@;
    let (word, color_code) = match severity {
        Some(Severity::Warning) => ("warning", "33"),
        Some(Severity::Advice) => ("advice", "36"),
        _ => ("error", "31"),
    };
    let mut line: Vec<char> = Vec::new();
    push_colored(&mut line, &chars_of(word), &chars_of(color_code), colors);
    match code {
        Some(c) => {
            let mut bracketed = vec!['['];
            append(&mut bracketed, &chars_of(c));
            bracketed.push(']');
            assert(bracketed@ =~= seq!['['] + c@ + seq![']']);
            push_colored(&mut line, &bracketed, &chars_of("1"), colors);
        },
        None => {},
    }
    push_str(&mut line, ": ");
    push_str(&mut line, message);
    line.push('\n');
    assert(line@ =~= header_part(
        severity,
        match code {
            Some(c) => Some(c@),
            None => None,
        },
        message@,
        colors,
    ));
    append(out, &line);
}

/// Appends [`note_part`].
fn push_note(out: &mut Vec<char>, word: &str, code: &str, text: &str, colors: bool)
    ensures
        final(out)@ == old(out)@ + note_part(word@, code@, text@, colors),
{
    let mut line: Vec<char> = Vec::new();
    push_str(&mut line, "  = ");
    push_colored(&mut line, &chars_of(word), &chars_of(code), colors);
    push_str(&mut line, ": ");
    push_str(&mut line, text);
    line.push('\n');
    assert(line@ =~= note_part(word@, code@, text@, colors));
    append(out, &line);
}

/// Appends [`excerpt_part`].
fn push_excerpt(out: &mut Vec<char>, e: &Excerpt, labels: &[LabeledSpan], colors: bool)
    requires
        e.line + 1 <= usize::MAX,
        e.column + 1 <= usize::MAX,
        e.source_start + byte_len(e.source@) < usize::MAX,
        e.line + e.line_count + e.source@.len() + 2 <= usize::MAX,
        forall|j: int| 0 <= j < labels@.len() ==> #[trigger] labels@[j].offset + labels@[j].len <= usize::MAX,
    ensures
        final(out)@ == old(out)@ + excerpt_part(*e, labels@, colors),
{
    let mut part: Vec<char> = Vec::new();
    part.push(' ');
    let mut arrow: Vec<char> = Vec::new();
    push_str(&mut arrow, "--> ");
    match &e.name {
        Some(n) => push_str(&mut arrow, n.as_str()),
        None => push_str(&mut arrow, "<source>"),
    }
    arrow.push(':');
    push_decimal(&mut arrow, (e.line + 1) as u128);
    arrow.push(':');
    push_decimal(&mut arrow, (e.column + 1) as u128);
    push_colored(&mut part, &arrow, &chars_of("36"), colors);
    part.push('\n');
    let ghost top = part@;
    let mut gutter: Vec<char> = Vec::new();
    push_colored(&mut gutter, &chars_of("  |"), &chars_of("34"), colors);
    gutter.push('\n');
    append(&mut part, &gutter);
    let rendered = render_source(e.source.as_str(), e.source_start, e.line, e.line_count, labels, colors);
    push_str(&mut part, rendered.as_str());
    append(&mut part, &gutter);
    assert(part@ =~= excerpt_part(*e, labels@, colors));
    append(out, &part);
}

/// The header of a report starts with its severity's word, coloured when
/// colours are on.
proof fn lemma_header_starts(severity: Option<Severity>, code: Option<Seq<char>>, message: Seq<char>, colors: bool)
    ensures
        ({
            let (word, c) = severity_style(severity);
            let h = header_part(severity, code, message, colors);
            let lead = if colors { seq!['\x1b', '['] + c + seq!['m'] + word } else { word };
            h.len() >= lead.len() && h.take(lead.len() as int) == lead
        }),
{
    let (word, c) = severity_style(severity);
    let h = header_part(severity, code, message, colors);
    let lead = if colors { seq!['\x1b', '['] + c + seq!['m'] + word } else { word };
    assert(h.take(lead.len() as int) =~= lead);
}

/// A report is its header followed by what does not depend on the
/// severity.
proof fn lemma_report_split(
    severity: Option<Severity>,
    code: Option<Seq<char>>,
    message: Seq<char>,
    excerpt: Option<Excerpt>,
    labels: Seq<LabeledSpan>,
    help: Option<Seq<char>>,
    url: Option<Seq<char>>,
    colors: bool,
)
    ensures
        report_spec(severity, code, message, excerpt, labels, help, url, colors) == header_part(severity, code, message, colors)
            + report_spec(severity, code, message, excerpt, labels, help, url, colors).skip(
            header_part(severity, code, message, colors).len() as int,
        ),
        report_spec(severity, code, message, excerpt, labels, help, url, colors).skip(
            header_part(severity, code, message, colors).len() as int,
        ) == report_spec(None, code, message, excerpt, labels, help, url, colors).skip(
            header_part(None, code, message, colors).len() as int,
        ),
{
    let h = header_part(severity, code, message, colors);
    let h0 = header_part(None, code, message, colors);
    let r = report_spec(severity, code, message, excerpt, labels, help, url, colors);
    let r0 = report_spec(None, code, message, excerpt, labels, help, url, colors);
    assert(r =~= h + r.skip(h.len() as int));
    assert(r.skip(h.len() as int) =~= r0.skip(h0.len() as int));
}

/// A report's first characters are its header's.
proof fn lemma_report_lead(
    severity: Option<Severity>,
    code: Option<Seq<char>>,
    message: Seq<char>,
    excerpt: Option<Excerpt>,
    labels: Seq<LabeledSpan>,
    help: Option<Seq<char>>,
    url: Option<Seq<char>>,
    colors: bool,
)
    ensures
        ({
            let (word, c) = severity_style(severity);
            let lead = if colors { seq!['\x1b', '['] + c + seq!['m'] + word } else { word };
            let r = report_spec(severity, code, message, excerpt, labels, help, url, colors);
            r.len() >= lead.len() && r.take(lead.len() as int) == lead
        }),
{
    lemma_report_split(severity, code, message, excerpt, labels, help, url, colors);
    lemma_header_starts(severity, code, message, colors);
    let (word, c) = severity_style(severity);
    let lead = if colors { seq!['\x1b', '['] + c + seq!['m'] + word } else { word };
    let h = header_part(severity, code, message, colors);
    let r = report_spec(severity, code, message, excerpt, labels, help, url, colors);
    assert(r.take(lead.len() as int) =~= h.take(lead.len() as int));
}

/// A report of severity `Error` renders exactly as one without a severity,
/// and its header starts with the word `error` (in colour 31 when colours
/// are on); `warning` (colour 33) and `advice` (colour 36) head the other
/// two severities.
pub proof fn law_severity_headers(
    code: Option<Seq<char>>,
    message: Seq<char>,
    excerpt: Option<Excerpt>,
    labels: Seq<LabeledSpan>,
    help: Option<Seq<char>>,
    url: Option<Seq<char>>,
    colors: bool,
)
    ensures
        report_spec(Some(Severity::Error), code, message, excerpt, labels, help, url, colors)
            == report_spec(None, code, message, excerpt, labels, help, url, colors),
        !colors ==> report_spec(Some(Severity::Error), code, message, excerpt, labels, help, url, colors).take(5)
            == seq!['e', 'r', 'r', 'o', 'r'],
        colors ==> report_spec(Some(Severity::Error), code, message, excerpt, labels, help, url, colors).take(10)
            == seq!['\x1b', '[', '3', '1', 'm', 'e', 'r', 'r', 'o', 'r'],
        !colors ==> report_spec(Some(Severity::Warning), code, message, excerpt, labels, help, url, colors).take(7)
            == seq!['w', 'a', 'r', 'n', 'i', 'n', 'g'],
        colors ==> report_spec(Some(Severity::Warning), code, message, excerpt, labels, help, url, colors).take(12)
            == seq!['\x1b', '[', '3', '3', 'm', 'w', 'a', 'r', 'n', 'i', 'n', 'g'],
        !colors ==> report_spec(Some(Severity::Advice), code, message, excerpt, labels, help, url, colors).take(6)
            == seq!['a', 'd', 'v', 'i', 'c', 'e'],
        colors ==> report_spec(Some(Severity::Advice), code, message, excerpt, labels, help, url, colors).take(11)
            == seq!['\x1b', '[', '3', '6', 'm', 'a', 'd', 'v', 'i', 'c', 'e'],
{
    reveal_strlit("error");
    reveal_strlit("31");
    reveal_strlit("warning");
    reveal_strlit("33");
    reveal_strlit("advice");
    reveal_strlit("36");
    lemma_report_split(Some(Severity::Error), code, message, excerpt, labels, help, url, colors);
    lemma_report_split(None, code, message, excerpt, labels, help, url, colors);
    assert(header_part(Some(Severity::Error), code, message, colors) == header_part(None, code, message, colors));
    lemma_report_lead(Some(Severity::Error), code, message, excerpt, labels, help, url, colors);
    lemma_report_lead(Some(Severity::Warning), code, message, excerpt, labels, help, url, colors);
    lemma_report_lead(Some(Severity::Advice), code, message, excerpt, labels, help, url, colors);
    assert(seq!['\x1b', '['] + "31"@ + seq!['m'] + "error"@ =~= seq!['\x1b', '[', '3', '1', 'm', 'e', 'r', 'r', 'o', 'r']);
    assert(seq!['\x1b', '['] + "33"@ + seq!['m'] + "warning"@ =~= seq!['\x1b', '[', '3', '3', 'm', 'w', 'a', 'r', 'n', 'i', 'n', 'g']);
    assert(seq!['\x1b', '['] + "36"@ + seq!['m'] + "advice"@ =~= seq!['\x1b', '[', '3', '6', 'm', 'a', 'd', 'v', 'i', 'c', 'e']);
    assert("error"@ =~= seq!['e', 'r', 'r', 'o', 'r']);
    assert("warning"@ =~= seq!['w', 'a', 'r', 'n', 'i', 'n', 'g']);
    assert("advice"@ =~= seq!['a', 'd', 'v', 'i', 'c', 'e']);
}

} // verus!
