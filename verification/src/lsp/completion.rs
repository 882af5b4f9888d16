//! Completion helpers that read only the text of the document: attribute
//! names and arguments after `@`, the struct literal and field access being
//! typed.

use vstd::prelude::*;
use vstd::string::StringSliceAdditionalSpecFns;
use vstd::utf8::*;

use crate::chars::{chars_of, is_uppercase, is_uppercase_spec, string_from_chars};
use crate::lsp::position::{clamp, position_at, position_spec, LineIndex, Position, Range};
use crate::lsp::text::{
    copy_range, slice_str, is_ident_byte, last_index_in, lemma_encode_ascii_len, lemma_encode_concat,
    lemma_encode_prefix_boundary, lemma_word_start_bounds, line_start, strip_nonword_end,
    text_between, trim, word_start, word_suffix,
};

verus! {

broadcast use vstd::utf8::group_utf8_lib;

/// What a completion item stands for.
#[derive(Debug, Clone, Copy, PartialEq, Eq, Structural)]
pub enum CompletionItemKind {
    Keyword,
    Field,
    Module,
    Function,
    Struct,
    Enum,
    EnumMember,
    Variable,
}

/// How documentation text is marked up.
#[derive(Debug, Clone, Copy, PartialEq, Eq, Structural)]
pub enum MarkupKind {
    PlainText,
    Markdown,
}

/// Documentation of a completion item.
#[derive(Debug)]
pub struct MarkupContent {
    pub kind: MarkupKind,
    pub value: String,
}

/// Text that replaces a range.
#[derive(Debug)]
pub struct TextEdit {
    pub range: Range,
    pub new_text: String,
}

/// One completion offered to the client.
#[derive(Debug)]
pub struct CompletionItem {
    pub label: String,
    pub kind: Option<CompletionItemKind>,
    pub detail: Option<String>,
    pub documentation: Option<MarkupContent>,
    pub text_edit: Option<TextEdit>,
}

/// An entry of a completion table: label, detail, documentation.
pub type Entry = (Seq<char>, Seq<char>, Seq<char>);

/// The item offered for a table entry: a keyword with Markdown
/// documentation whose edit replaces `range` by the label.
pub open spec fn item_for(item: CompletionItem, entry: Entry, range: Range) -> bool {
    &&& item.label@ == entry.0
    &&& item.kind == Some(CompletionItemKind::Keyword)
    &&& item.detail matches Some(d) && d@ == entry.1
    &&& item.documentation matches Some(m) && m.kind == MarkupKind::Markdown && m.value@ == entry.2
    &&& item.text_edit matches Some(e) && e.range == range && e.new_text@ == entry.0
}

/// The entries of `table[0..n]` whose label starts with `partial`.
pub open spec fn matching(table: Seq<Entry>, partial: Seq<char>, n: int) -> Seq<Entry>
    decreases if n > 0 { n } else { 0 },
{
    if n <= 0 || n > table.len() {
        Seq::empty()
    } else if partial.is_prefix_of(table[n - 1].0) {
        matching(table, partial, n - 1).push(table[n - 1])
    } else {
        matching(table, partial, n - 1)
    }
}

/// The items describe the entries, one for one, all with the same range.
pub open spec fn items_for(items: Seq<CompletionItem>, entries: Seq<Entry>, range: Range) -> bool {
    &&& items.len() == entries.len()
    &&& forall|i: int| 0 <= i < items.len() ==> item_for(#[trigger] items[i], entries[i], range)
}

/// The attributes offered after `@`.
pub open spec fn attribute_table() -> Seq<Entry> {
    seq![
        ("doc"@, "documentation attribute"@, DOC_DOCS@),
        ("allow"@, "lint suppression attribute"@, ALLOW_DOCS@),
        ("intrinsic"@, "compiler intrinsic attribute"@, INTRINSIC_DOCS@),
    ]
}

/// The arguments offered inside `@allow(`.
pub open spec fn allow_arg_table() -> Seq<Entry> {
    seq![("large_array"@, "large array diagnostic suppression"@, LARGE_ARRAY_DOCS@)]
}

/// Documentation of `@doc`.
pub const DOC_DOCS: &'static str = "Attach Markdown documentation to a function, struct, tuple, enum, or type alias.\n\n```vinyl\n@doc(\"Adds two numbers\")\nfn add() {}\n```\n\nThe documentation is shown in LSP hover results.";

/// Documentation of `@allow`.
pub const ALLOW_DOCS: &'static str = "Suppress a compiler diagnostic on the attached item.\n\n```vinyl\n@allow(large_array)\nfn main() {}\n```\n\nThe diagnostic name to suppress goes inside the parentheses.";

/// Documentation of `@intrinsic`.
pub const INTRINSIC_DOCS: &'static str = "Mark a function as a compiler intrinsic. The body is never compiled; calls are lowered directly by the compiler instead.\n\n```vinyl\n@intrinsic\npublic fn len(values: [int;1]): usize { 0 }\n```\n\nTypically only used inside the standard library.";

/// Documentation of the `large_array` argument of `@allow`.
pub const LARGE_ARRAY_DOCS: &'static str = "Suppress the `large_array` warning (arrays of 32 KiB or more) and the `array_too_large` error (arrays of 1 MiB or more) for array fills in the attached function.\n\nHeap-allocated arrays are not implemented yet, so large stack arrays are flagged.";

/// Copies a string slice.
fn owned(s: &str) -> (r: String)
    ensures
        r@ == s@,
{
    s.to_owned()
}

/// Whether `partial` starts `name`.
fn starts_with(name: &str, partial: &Vec<char>) -> (r: bool)
    ensures
        r == partial@.is_prefix_of(name@),
{
    let n = chars_of(name);
    if partial.len() > n.len() {
        return false;
    }
    let mut i: usize = 0;
    while i < partial.len()
        invariant
            partial@.len() <= n@.len(),
            n@ == name@,
            i <= partial@.len(),
            forall|j: int| 0 <= j < i ==> partial@[j] == n@[j],
        decreases partial.len() - i,
    {
        if partial[i] != n[i] {
            return false;
        }
        i += 1;
    }
    assert(partial@ =~= n@.subrange(0, partial@.len() as int));
    true
}

/// The items for the entries of `table` that `partial` starts, each
/// replacing `range`.
fn table_items(table: &[(&str, &str, &str)], partial: &Vec<char>, range: Range) -> (r: Vec<CompletionItem>)
    ensures
        items_for(r@, matching(table@.map_values(|e: (&str, &str, &str)| (e.0@, e.1@, e.2@)), partial@, table@.len() as int), range),
{
    let ghost t = table@.map_values(|e: (&str, &str, &str)| (e.0@, e.1@, e.2@));
    let mut items: Vec<CompletionItem> = Vec::new();
    let mut i: usize = 0;
    while i < table.len()
        invariant
            i <= table@.len(),
            t == table@.map_values(|e: (&str, &str, &str)| (e.0@, e.1@, e.2@)),
            items_for(items@, matching(t, partial@, i as int), range),
        decreases table.len() - i,
    {
        let (name, detail, docs) = table[i];
        assert(t[i as int] == (name@, detail@, docs@));
        if starts_with(name, partial) {
            let item = CompletionItem {
                label: owned(name),
                kind: Some(CompletionItemKind::Keyword),
                detail: Some(owned(detail)),
                documentation: Some(MarkupContent { kind: MarkupKind::Markdown, value: owned(docs) }),
                text_edit: Some(TextEdit { range, new_text: owned(name) }),
            };
            let ghost before = items@;
            items.push(item);
            assert(items_for(items@, matching(t, partial@, i + 1), range)) by {
                assert forall|k: int| 0 <= k < items@.len() implies item_for(
                    #[trigger] items@[k],
                    matching(t, partial@, i + 1)[k],
                    range,
                ) by {
                    if k < before.len() {
                        assert(items@[k] == before[k]);
                    }
                }
            }
        }
        i += 1;
    }
    items
}

/// The range from `offset` less the length of `partial` to `offset`.
pub open spec fn partial_range(b: Seq<u8>, offset: int, partial_len: int) -> Range {
    Range {
        start: position_spec(b, if offset >= partial_len { offset - partial_len } else { 0 }),
        end: position_spec(b, offset),
    }
}

/// The attribute names that `partial` starts, as completions replacing
/// `partial`; `None` when there are none.
pub fn attribute_name_completions(line_index: &LineIndex, offset: usize, partial: &str) -> (r: Option<Vec<CompletionItem>>)
    requires
        line_index.wf(),
        is_char_boundary(line_index.bytes(), clamp(line_index.bytes(), offset as int)),
        is_char_boundary(
            line_index.bytes(),
            clamp(line_index.bytes(), if offset >= partial.spec_bytes().len() { offset - partial.spec_bytes().len() } else { 0 }),
        ),
    ensures
        ({
            let entries = matching(attribute_table(), partial@, 3);
            let range = partial_range(line_index.bytes(), offset as int, partial.spec_bytes().len() as int);
            &&& entries.len() == 0 ==> r is None
            &&& entries.len() > 0 ==> (r matches Some(items) && items_for(items@, entries, range))
        }),
{
    let table = [
        ("doc", "documentation attribute", DOC_DOCS),
        ("allow", "lint suppression attribute", ALLOW_DOCS),
        ("intrinsic", "compiler intrinsic attribute", INTRINSIC_DOCS),
    ];
    assert(table@.map_values(|e: (&str, &str, &str)| (e.0@, e.1@, e.2@)) =~= attribute_table());
    let len = partial.as_bytes().len();
    let start = if offset >= len { offset - len } else { 0 };
    let range = Range::new(position_at(line_index, start), position_at(line_index, offset));
    let items = table_items(table.as_slice(), &chars_of(partial), range);
    if items.len() == 0 {
        None
    } else {
        Some(items)
    }
}

/// The `@allow` arguments that `partial` starts, as completions replacing
/// `partial`; `None` when there are none.
pub fn attribute_arg_completions(line_index: &LineIndex, offset: usize, partial: &str) -> (r: Option<Vec<CompletionItem>>)
    requires
        line_index.wf(),
        is_char_boundary(line_index.bytes(), clamp(line_index.bytes(), offset as int)),
        is_char_boundary(
            line_index.bytes(),
            clamp(line_index.bytes(), if offset >= partial.spec_bytes().len() { offset - partial.spec_bytes().len() } else { 0 }),
        ),
    ensures
        ({
            let entries = matching(allow_arg_table(), partial@, 1);
            let range = partial_range(line_index.bytes(), offset as int, partial.spec_bytes().len() as int);
            &&& entries.len() == 0 ==> r is None
            &&& entries.len() > 0 ==> (r matches Some(items) && items_for(items@, entries, range))
        }),
{
    let table = [("large_array", "large array diagnostic suppression", LARGE_ARRAY_DOCS)];
    assert(table@.map_values(|e: (&str, &str, &str)| (e.0@, e.1@, e.2@)) =~= allow_arg_table());
    let len = partial.as_bytes().len();
    let start = if offset >= len { offset - len } else { 0 };
    let range = Range::new(position_at(line_index, start), position_at(line_index, offset));
    let items = table_items(table.as_slice(), &chars_of(partial), range);
    if items.len() == 0 {
        None
    } else {
        Some(items)
    }
}

/// Characters that may follow `@`: ASCII letters, digits and `_`.
pub open spec fn all_ascii_word(s: Seq<char>) -> bool {
    forall|i: int| 0 <= i < s.len() ==> is_ascii_word_char(#[trigger] s[i])
}

/// An ASCII letter, digit or `_`.
pub open spec fn is_ascii_word_char(c: char) -> bool {
    c == '_' || ('a' <= c && c <= 'z') || ('A' <= c && c <= 'Z') || ('0' <= c && c <= '9')
}

/// What is being completed after `@` on a line that ends at the cursor:
/// an `@allow(` argument (`true`) or an attribute name (`false`), and the
/// partial word typed so far. Only blanks may precede the `@`.
pub open spec fn attribute_context(line: Seq<char>) -> Option<(bool, Seq<char>)> {
    let paren = last_index_in(line, '(', line.len() as int);
    let at_before_paren = match paren {
        Some(o) => last_index_in(line, '@', o),
        None => None,
    };
    if paren is Some && at_before_paren is Some {
        let o = paren.unwrap();
        let a = at_before_paren.unwrap();
        if trim(line.take(a)).len() != 0 || trim(line.subrange(a + 1, o)) != "allow"@ {
            None
        } else if all_ascii_word(line.skip(o + 1)) {
            Some((true, line.skip(o + 1)))
        } else {
            None
        }
    } else {
        match last_index_in(line, '@', line.len() as int) {
            None => None,
            Some(a) => if trim(line.take(a)).len() != 0 || !all_ascii_word(line.skip(a + 1)) {
                None
            } else {
                Some((false, line.skip(a + 1)))
            },
        }
    }
}

/// The line of the cursor up to the cursor, in the text with bytes `b`.
pub open spec fn line_before(b: Seq<u8>, offset: int) -> Seq<char> {
    let p = text_between(b, 0, offset);
    p.skip(line_start(p))
}

/// A last index found in `s[0..n]` lies there.
proof fn lemma_last_index_in(s: Seq<char>, c: char, n: int)
    ensures
        last_index_in(s, c, n) matches Some(i) ==> 0 <= i < n && n <= s.len() && s[i] == c,
        last_index_in(s, c, n) is None && 0 <= n <= s.len() ==> forall|i: int| 0 <= i < n ==> s[i] != c,
    decreases if n > 0 { n } else { 0 },
{
    if 0 < n <= s.len() && s[n - 1] != c {
        lemma_last_index_in(s, c, n - 1);
    }
}

/// Finds [`last_index_in`] over the whole of `s[0..n]`.
fn find_last(s: &Vec<char>, c: char, n: usize) -> (r: Option<usize>)
    requires
        n <= s@.len(),
    ensures
        match r {
            Some(i) => i < n && last_index_in(s@, c, n as int) == Some(i as int),
            None => last_index_in(s@, c, n as int) is None,
        },
{
    let mut k = n;
    while k > 0
        invariant
            k <= n <= s@.len(),
            last_index_in(s@, c, n as int) == last_index_in(s@, c, k as int),
        decreases k,
    {
        if s[k - 1] == c {
            return Some(k - 1);
        }
        k -= 1;
    }
    None
}

/// Decides [`all_ascii_word`] for `s[from..]`.
fn ascii_word_from(s: &Vec<char>, from: usize) -> (r: bool)
    requires
        from <= s@.len(),
    ensures
        r == all_ascii_word(s@.skip(from as int)),
{
    let mut i = from;
    while i < s.len()
        invariant
            from <= i <= s@.len(),
            forall|j: int| from <= j < i ==> is_ascii_word_char(#[trigger] s@[j]),
        decreases s.len() - i,
    {
        let c = s[i];
        if !(c == '_' || ('a' <= c && c <= 'z') || ('A' <= c && c <= 'Z') || ('0' <= c && c <= '9')) {
            assert(!is_ascii_word_char(s@.skip(from as int)[i - from]));
            return false;
        }
        i += 1;
    }
    assert forall|j: int| 0 <= j < s@.skip(from as int).len() implies is_ascii_word_char(#[trigger] s@.skip(from as int)[j]) by {
        assert(s@.skip(from as int)[j] == s@[from + j]);
    }
    true
}

/// Whether the trimmed text is empty.
fn trims_to_empty(s: &Vec<char>, start: usize, end: usize) -> (r: bool)
    requires
        start <= end <= s@.len(),
    ensures
        r == (trim(s@.subrange(start as int, end as int)).len() == 0),
{
    let piece = copy_range(s, start, end);
    let t = crate::lsp::text::trim_chars(&piece);
    t.len() == 0
}

/// The cursor's line after an ASCII word ends at a character boundary
/// that many bytes before the cursor.
proof fn lemma_ascii_suffix_boundary(src: Seq<char>, offset: int, k: int)
    requires
        is_char_boundary(encode_utf8(src), offset),
        0 <= k <= text_between(encode_utf8(src), 0, offset).len(),
        forall|i: int|
            text_between(encode_utf8(src), 0, offset).len() - k <= i < text_between(encode_utf8(src), 0, offset).len()
                ==> (#[trigger] text_between(encode_utf8(src), 0, offset)[i] as u32) < 0x80,
    ensures
        k <= offset,
        is_char_boundary(encode_utf8(src), offset - k),
{
    let b = encode_utf8(src);
    let p = text_between(b, 0, offset);
    let n = p.len();
    let q = p.take(n - k);
    let tail = p.skip(n - k);
    encode_utf8_valid_utf8(src);
    encode_utf8_decode_utf8(src);
    valid_utf8_split(b, offset);
    decode_utf8_encode_utf8(b.subrange(0, offset));
    decode_utf8_split(b, offset);
    let rest = text_between(b, offset, b.len() as int);
    assert(src =~= p + rest);
    assert(p =~= q + tail);
    lemma_encode_concat(q, tail);
    assert forall|i: int| 0 <= i < tail.len() implies (#[trigger] tail[i] as u32) < 0x80 by {
        assert(tail[i] == p[n - k + i]);
    }
    lemma_encode_ascii_len(tail);
    assert(encode_utf8(p) == b.subrange(0, offset));
    assert(q + (tail + rest) =~= src);
    lemma_encode_prefix_boundary(q, tail + rest);
}

/// Completions after `@` on the cursor's line: attribute names, or the
/// arguments of `@allow(`; see [`attribute_context`].
pub fn attribute_completions(source: &str, line_index: &LineIndex, offset: usize) -> (r: Option<Vec<CompletionItem>>)
    requires
        line_index.wf(),
        line_index.bytes() == source.spec_bytes(),
        is_char_boundary(source.spec_bytes(), offset as int),
    ensures
        match attribute_context(line_before(source.spec_bytes(), offset as int)) {
            None => r is None,
            Some((is_arg, partial)) => {
                let entries = if is_arg {
                    matching(allow_arg_table(), partial, 1)
                } else {
                    matching(attribute_table(), partial, 3)
                };
                let range = partial_range(source.spec_bytes(), offset as int, partial.len() as int);
                &&& entries.len() == 0 ==> r is None
                &&& entries.len() > 0 ==> (r matches Some(items) && items_for(items@, entries, range))
            },
        },
{
    proof {
        encode_utf8_valid_utf8(source@);
        is_char_boundary_start_end_of_seq(source.spec_bytes());
    }
    let p = chars_of(slice_str(source, 0, offset));
    let ls = crate::lsp::text::find_line_start(&p);
    let line = copy_range(&p, ls, p.len());
    assert(line@ =~= p@.skip(ls as int));
    let n = line.len();
    let paren = find_last(&line, '(', n);
    let at_before_paren = match paren {
        Some(o) => find_last(&line, '@', o),
        None => None,
    };
    proof {
        lemma_last_index_in(line@, '(', n as int);
        if let Some(o) = paren {
            lemma_last_index_in(line@, '@', o as int);
        }
        lemma_last_index_in(line@, '@', n as int);
    }
    let (is_arg, from) = match (paren, at_before_paren) {
        (Some(o), Some(a)) => {
            let attr = copy_range(&line, a + 1, o);
            let attr_trimmed = crate::lsp::text::trim_chars(&attr);
            let allow = ['a', 'l', 'l', 'o', 'w'];
            proof {
                reveal_strlit("allow");
            }
            assert(allow@ =~= "allow"@);
            let is_allow = attr_trimmed.len() == 5 && crate::chars::word_eq(&attr_trimmed, 0, 5, allow.as_slice());
            assert(is_allow == (attr_trimmed@ == "allow"@)) by {
                if attr_trimmed@.len() == 5 {
                    assert(attr_trimmed@.subrange(0, 5) =~= attr_trimmed@);
                }
            }
            if !trims_to_empty(&line, 0, a) || !is_allow {
                assert(line@.subrange(0, a as int) =~= line@.take(a as int));
                return None;
            }
            assert(line@.subrange(0, a as int) =~= line@.take(a as int));
            if !ascii_word_from(&line, o + 1) {
                return None;
            }
            (true, o + 1)
        },
        _ => {
            let a = match find_last(&line, '@', n) {
                Some(a) => a,
                None => return None,
            };
            assert(line@.subrange(0, a as int) =~= line@.take(a as int));
            if !trims_to_empty(&line, 0, a) || !ascii_word_from(&line, a + 1) {
                return None;
            }
            (false, a + 1)
        },
    };
    let partial = copy_range(&line, from, n);
    assert(partial@ =~= line@.skip(from as int));
    proof {
        let k = partial@.len() as int;
        assert forall|i: int| p@.len() - k <= i < p@.len() implies (#[trigger] p@[i] as u32) < 0x80 by {
            assert(p@[i] == partial@[i - (p@.len() - k)]);
            assert(is_ascii_word_char(partial@[i - (p@.len() - k)]));
        }
        lemma_ascii_suffix_boundary(source@, offset as int, k);
        lemma_encode_ascii_len(partial@);
    }
    let partial_text = string_from_chars(&partial);
    let partial_str = partial_text.as_str();
    assert(partial_str.spec_bytes().len() == partial@.len());
    if is_arg {
        attribute_arg_completions(line_index, offset, partial_str)
    } else {
        attribute_name_completions(line_index, offset, partial_str)
    }
}

/// The struct whose literal is being written at the end of `p`: the last
/// word before the last `{`, when no `}` follows that brace and the word
/// starts with an uppercase letter.
pub open spec fn struct_literal_spec(p: Seq<char>) -> Option<Seq<char>> {
    match last_index_in(p, '{', p.len() as int) {
        None => None,
        Some(brace) => if p.skip(brace + 1).contains('}') {
            None
        } else {
            let name = word_suffix(strip_nonword_end(p.take(brace)));
            if name.len() == 0 || !is_uppercase_spec(name[0]) {
                None
            } else {
                Some(name)
            }
        },
    }
}

/// The type name of the struct literal being written before `offset`
/// (clamped); see [`struct_literal_spec`].
pub fn struct_literal_context(source: &str, offset: usize) -> (r: Option<String>)
    requires
        is_char_boundary(source.spec_bytes(), clamp(source.spec_bytes(), offset as int)),
    ensures
        match r {
            Some(name) => struct_literal_spec(text_between(source.spec_bytes(), 0, clamp(source.spec_bytes(), offset as int))) == Some(name@),
            None => struct_literal_spec(text_between(source.spec_bytes(), 0, clamp(source.spec_bytes(), offset as int))) is None,
        },
{
    let bytes = source.as_bytes();
    let m = if offset < bytes.len() { offset } else { bytes.len() };
    proof {
        encode_utf8_valid_utf8(source@);
        is_char_boundary_start_end_of_seq(source.spec_bytes());
    }
    let p = chars_of(slice_str(source, 0, m));
    let brace = match find_last(&p, '{', p.len()) {
        Some(b) => b,
        None => return None,
    };
    let mut i = brace + 1;
    while i < p.len()
        invariant
            brace + 1 <= i <= p@.len(),
            forall|j: int| brace + 1 <= j < i ==> p@[j] != '}',
            p@ == text_between(source.spec_bytes(), 0, clamp(source.spec_bytes(), offset as int)),
            last_index_in(p@, '{', p@.len() as int) == Some(brace as int),
        decreases p.len() - i,
    {
        if p[i] == '}' {
            assert(p@.skip(brace + 1)[i - brace - 1] == '}');
            assert(p@.skip(brace + 1).contains('}'));
            return None;
        }
        i += 1;
    }
    let ghost after = p@.skip(brace + 1);
    assert(!after.contains('}')) by {
        if after.contains('}') {
            let k = choose|k: int| 0 <= k < after.len() && #[trigger] after[k] == '}';
            assert(p@[brace + 1 + k] == '}');
        }
    }
    let end = crate::lsp::text::strip_nonword_len(&p, brace);
    let t = copy_range(&p, 0, end);
    assert(t@ =~= p@.take(end as int));
    assert(p@.take(brace as int).take(end as int) =~= p@.take(end as int));
    let start = crate::lsp::text::find_word_start(&t);
    proof {
        lemma_word_start_bounds(t@);
    }
    let name = copy_range(&t, start, t.len());
    assert(name@ =~= word_suffix(t@));
    if name.len() == 0 || !is_uppercase(name[0]) {
        return None;
    }
    Some(string_from_chars(&name))
}

/// Where the run of identifier bytes that ends at `i` begins.
pub open spec fn ident_run_start(b: Seq<u8>, i: int) -> int
    decreases if i > 0 { i } else { 0 },
{
    if 0 < i <= b.len() && is_ident_byte(b[i - 1]) {
        ident_run_start(b, i - 1)
    } else {
        i
    }
}

/// The `.` of a field access being typed at byte `offset` (clamped): the
/// word before the cursor follows a single `.` that itself follows an
/// identifier, `)` or `]`, or starts the text.
pub open spec fn field_access_spec(b: Seq<u8>, offset: int) -> Option<int> {
    let ws = ident_run_start(b, clamp(b, offset));
    if ws <= 0 || b[ws - 1] != 0x2e {
        None
    } else if ws >= 2 && b[ws - 2] == 0x2e {
        None
    } else if ws >= 2 && !(is_ident_byte(b[ws - 2]) || b[ws - 2] == 0x29 || b[ws - 2] == 0x5d) {
        None
    } else {
        Some(ws - 1)
    }
}

/// The byte index of the `.` of the field access being typed at `offset`;
/// see [`field_access_spec`].
pub fn field_access_context(source: &str, offset: usize) -> (r: Option<usize>)
    ensures
        match r {
            Some(i) => field_access_spec(source.spec_bytes(), offset as int) == Some(i as int),
            None => field_access_spec(source.spec_bytes(), offset as int) is None,
        },
{
    let bytes = source.as_bytes();
    let m = if offset < bytes.len() { offset } else { bytes.len() };
    let mut word_start = m;
    while word_start > 0 && crate::lsp::text::ident_byte(bytes[word_start - 1])
        invariant
            word_start <= m <= bytes@.len(),
            bytes@ == source.spec_bytes(),
            ident_run_start(bytes@, m as int) == ident_run_start(bytes@, word_start as int),
        decreases word_start,
    {
        word_start -= 1;
    }
    if word_start == 0 || bytes[word_start - 1] != 0x2e {
        return None;
    }
    if word_start >= 2 && bytes[word_start - 2] == 0x2e {
        return None;
    }
    if word_start >= 2 {
        let before_dot = bytes[word_start - 2];
        if !(crate::lsp::text::ident_byte(before_dot) || before_dot == 0x29 || before_dot == 0x5d) {
            return None;
        }
    }
    Some(word_start - 1)
}

} // verus!
