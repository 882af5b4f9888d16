//! Workspace helpers of the language server that decide on names and paths:
//! which imports cover a module, how an import's leading words resolve, and
//! whether two paths name the same file.

use vstd::prelude::*;
use vstd::string::StringSliceAdditionalSpecFns;
use vstd::utf8::*;

use crate::chars::{chars_of, str_eq, string_from_chars};
use crate::lsp::text::{copy_range, is_word_char, slice_str, text_between, word_end_from};

verus! {

broadcast use vstd::utf8::group_utf8_lib;

/// `::` followed by `name`.
pub open spec fn qualified_suffix(name: Seq<char>) -> Seq<char> {
    seq![':', ':'] + name
}

/// Whether an import names the module `name`: it is the name itself or a
/// path ending in `::name`.
pub open spec fn import_covers(import: Seq<char>, name: Seq<char>) -> bool {
    import == name || qualified_suffix(name).is_suffix_of(import)
}

/// Whether `s` ends with `suffix`.
fn ends_with(s: &Vec<char>, suffix: &Vec<char>) -> (r: bool)
    ensures
        r == suffix@.is_suffix_of(s@),
{
    if suffix.len() > s.len() {
        return false;
    }
    let off = s.len() - suffix.len();
    let mut i: usize = 0;
    while i < suffix.len()
        invariant
            off + suffix@.len() == s@.len(),
            s@.len() == s.len(),
            i <= suffix@.len(),
            forall|j: int| 0 <= j < i ==> s@[off + j] == suffix@[j],
        decreases suffix.len() - i,
    {
        if s[off + i] != suffix[i] {
            assert(s@.subrange(off as int, s@.len() as int)[i as int] != suffix@[i as int]);
            return false;
        }
        i += 1;
    }
    assert(s@.subrange(off as int, s@.len() as int) =~= suffix@);
    true
}

/// Whether some import among `imports` covers the module `import_name`.
pub fn is_imported(imports: &[String], import_name: &str) -> (r: bool)
    ensures
        r == exists|i: int| 0 <= i < imports@.len() && import_covers(#[trigger] imports@[i]@, import_name@),
{
    let name = chars_of(import_name);
    let mut suffix = vec![':', ':'];
    let mut k: usize = 0;
    while k < name.len()
        invariant
            k <= name@.len(),
            suffix@ == seq![':', ':'] + name@.take(k as int),
        decreases name.len() - k,
    {
        suffix.push(name[k]);
        k += 1;
        assert(suffix@ =~= seq![':', ':'] + name@.take(k as int));
    }
    assert(name@.take(k as int) =~= name@);
    let mut i: usize = 0;
    while i < imports.len()
        invariant
            i <= imports@.len(),
            name@ == import_name@,
            suffix@ == qualified_suffix(import_name@),
            forall|j: int| 0 <= j < i ==> !import_covers(#[trigger] imports@[j]@, import_name@),
        decreases imports.len() - i,
    {
        let import = chars_of(imports[i].as_str());
        if str_eq(imports[i].as_str(), import_name) || ends_with(&import, &suffix) {
            assert(import_covers(imports@[i as int]@, import_name@));
            return true;
        }
        i += 1;
    }
    false
}

/// How an import path starts.
#[derive(Debug, Clone, Copy, PartialEq, Eq, Structural)]
pub enum ImportPrefix {
    /// From the package root.
    Package,
    /// From the importing module's own directory.
    Self_,
    /// From the given number of directories above it.
    Parent(usize),
}

/// How many of `segs` are `word`.
pub open spec fn count_word(segs: Seq<Seq<char>>, word: Seq<char>) -> nat
    decreases segs.len(),
{
    if segs.len() == 0 {
        0
    } else {
        count_word(segs.drop_last(), word) + if segs.last() == word { 1nat } else { 0nat }
    }
}

/// Where an import whose leading words are `segs` starts from: any
/// `package` makes it the package root; one `parent` is the module's own
/// directory, each further one a directory up. Words other than `package`
/// and `parent` are refused.
pub open spec fn import_prefix_spec(segs: Seq<Seq<char>>) -> Result<Option<ImportPrefix>, ()> {
    let packages = count_word(segs, "package"@);
    let parents = count_word(segs, "parent"@);
    if segs.len() == 0 {
        Ok(None)
    } else if segs.len() != packages + parents {
        Err(())
    } else if packages > 0 {
        Ok(Some(ImportPrefix::Package))
    } else if parents == 1 {
        Ok(Some(ImportPrefix::Self_))
    } else {
        Ok(Some(ImportPrefix::Parent((parents - 1) as usize)))
    }
}

/// The texts of strings.
pub open spec fn texts_of(v: Seq<String>) -> Seq<Seq<char>> {
    v.map_values(|s: String| s@)
}

/// Resolves the leading words of an import; see [`import_prefix_spec`].
pub fn import_prefix(prefix: &[String]) -> (r: Result<Option<ImportPrefix>, ()>)
    ensures
        r == import_prefix_spec(texts_of(prefix@)),
{
    if prefix.len() == 0 {
        return Ok(None);
    }
    let ghost segs = texts_of(prefix@);
    let mut packages: usize = 0;
    let mut parents: usize = 0;
    let mut i: usize = 0;
    while i < prefix.len()
        invariant
            i <= prefix@.len(),
            segs == texts_of(prefix@),
            packages == count_word(segs.take(i as int), "package"@),
            parents == count_word(segs.take(i as int), "parent"@),
            packages + parents <= i,
        decreases prefix.len() - i,
    {
        assert(segs.take(i + 1).drop_last() =~= segs.take(i as int));
        assert(segs.take(i + 1).last() == prefix@[i as int]@);
        if str_eq(prefix[i].as_str(), "package") {
            packages += 1;
        }
        if str_eq(prefix[i].as_str(), "parent") {
            parents += 1;
        }
        proof {
            reveal_strlit("package");
            reveal_strlit("parent");
        }
        i += 1;
    }
    assert(segs.take(i as int) =~= segs);
    if prefix.len() != packages + parents {
        return Err(());
    }
    if packages > 0 {
        Ok(Some(ImportPrefix::Package))
    } else if parents == 1 {
        Ok(Some(ImportPrefix::Self_))
    } else {
        Ok(Some(ImportPrefix::Parent(parents - 1)))
    }
}

/// Whether `offset` lies in the half-open span.
pub fn span_contains(span: (usize, usize), offset: usize) -> (r: bool)
    ensures
        r == (span.0 <= offset && offset < span.1),
{
    offset >= span.0 && offset < span.1
}

/// Whether some item is a public definition named `name`; each item is its
/// name and whether it is public.
pub fn is_public_symbol(items: &[(String, bool)], name: &str) -> (r: bool)
    ensures
        r == exists|i: int| 0 <= i < items@.len() && #[trigger] items@[i].0@ == name@ && items@[i].1,
{
    let mut i: usize = 0;
    while i < items.len()
        invariant
            i <= items@.len(),
            forall|j: int| 0 <= j < i ==> !(#[trigger] items@[j].0@ == name@ && items@[j].1),
        decreases items.len() - i,
    {
        if items[i].1 && str_eq(items[i].0.as_str(), name) {
            return true;
        }
        i += 1;
    }
    false
}

/// The names of the primitive types as they are written.
pub open spec fn primitive_names() -> Seq<Seq<char>> {
    seq![
        "unit"@, "int"@, "int8"@, "int16"@, "int32"@, "int64"@, "int128"@, "isize"@,
        "uint8"@, "uint16"@, "uint32"@, "uint64"@, "uint128"@, "usize"@, "float"@,
        "float32"@, "float64"@, "bool"@, "char"@, "string"@,
    ]
}

/// Whether `name` is written as a primitive type.
pub fn is_primitive_type(name: &str) -> (r: bool)
    ensures
        r == primitive_names().contains(name@),
{
    let names = [
        "unit", "int", "int8", "int16", "int32", "int64", "int128", "isize", "uint8", "uint16",
        "uint32", "uint64", "uint128", "usize", "float", "float32", "float64", "bool", "char",
        "string",
    ];
    let ghost all = names@.map_values(|s: &str| s@);
    assert(all =~= primitive_names());
    let mut i: usize = 0;
    while i < names.len()
        invariant
            i <= names@.len(),
            all == names@.map_values(|s: &str| s@),
            all == primitive_names(),
            forall|j: int| 0 <= j < i ==> all[j] != name@,
        decreases names.len() - i,
    {
        if str_eq(names[i], name) {
            assert(all[i as int] == name@);
            return true;
        }
        i += 1;
    }
    assert(!all.contains(name@)) by {
        if all.contains(name@) {
            let k = choose|k: int| 0 <= k < all.len() && all[k] == name@;
            assert(all[k] != name@);
        }
    }
    false
}

/// Start of the last `::` ending within `t[0..n]`, over bytes.
pub open spec fn last_double_colon_byte(t: Seq<u8>, n: int) -> Option<int>
    decreases if n > 0 { n } else { 0 },
{
    if n < 2 || n > t.len() {
        None
    } else if t[n - 2] == 0x3a && t[n - 1] == 0x3a {
        Some(n - 2)
    } else {
        last_double_colon_byte(t, n - 1)
    }
}

/// A qualified name in the byte span `start..start + len` of the source
/// (clamped to its end), split at its last `::`: the byte index of the
/// `::` within the span, the module path before it, and the word after it.
pub open spec fn split_segments_spec(b: Seq<u8>, start: int, len: int) -> Option<(int, Seq<char>, Seq<char>)> {
    let end = if start + len < b.len() { start + len } else { b.len() as int };
    if !(start <= end && is_char_boundary(b, start) && is_char_boundary(b, end)) {
        None
    } else {
        let t = b.subrange(start, end);
        match last_double_colon_byte(t, t.len() as int) {
            None => None,
            Some(i) => {
                let after = text_between(t, i + 2, t.len() as int);
                Some((i, text_between(t, 0, i), after.take(word_end_from(after, 0))))
            },
        }
    }
}

/// The view of an optional split.
pub open spec fn opt_split(r: Option<(usize, String, String)>) -> Option<(int, Seq<char>, Seq<char>)> {
    match r {
        Some((i, m, item)) => Some((i as int, m@, item@)),
        None => None,
    }
}

/// Splits the qualified name in a span into its module prefix and final
/// item; see [`split_segments_spec`].
pub fn split_segments(source: &str, span_offset: usize, span_len: usize) -> (r: Option<(usize, String, String)>)
    requires
        span_offset + span_len <= usize::MAX,
    ensures
        opt_split(r) == split_segments_spec(source.spec_bytes(), span_offset as int, span_len as int),
{
    let bytes = source.as_bytes();
    let start = span_offset;
    let end = if span_offset + span_len < bytes.len() { span_offset + span_len } else { bytes.len() };
    if start > end || !source.is_char_boundary(start) || !source.is_char_boundary(end) {
        return None;
    }
    let text = slice_str(source, start, end);
    let tb = text.as_bytes();
    let ghost t = tb@;
    let mut n: usize = tb.len();
    loop
        invariant
            n <= t.len(),
            t == tb@,
            last_double_colon_byte(t, t.len() as int) == last_double_colon_byte(t, n as int),
            start <= end,
            span_offset == start,
            is_char_boundary(source.spec_bytes(), start as int),
            is_char_boundary(source.spec_bytes(), end as int),
            t == source.spec_bytes().subrange(start as int, end as int),
            end as int == (if span_offset + span_len < source.spec_bytes().len() {
                span_offset + span_len
            } else {
                source.spec_bytes().len() as int
            }),
        ensures
            2 <= n <= t.len(),
            last_double_colon_byte(t, t.len() as int) == Some(n - 2),
            t[n - 2] == 0x3a && t[n - 1] == 0x3a,
        decreases n,
    {
        if n < 2 {
            return None;
        }
        if tb[n - 2] == 0x3a && tb[n - 1] == 0x3a {
            break;
        }
        n -= 1;
    }
    let colon = n - 2;
    proof {
        encode_utf8_valid_utf8(text@);
        crate::lsp::text::lemma_ascii_byte_boundary(t, colon as int);
        if colon + 2 < t.len() {
            crate::lsp::position::lemma_after_ascii_not_continuation(t, colon + 1);
            is_char_boundary_iff_not_is_continuation_byte(t, colon + 2);
        } else {
            is_char_boundary_start_end_of_seq(t);
        }
    }
    let module = slice_str(text, 0, colon);
    let after = chars_of(slice_str(text, colon + 2, tb.len()));
    let stop = crate::lsp::text::find_word_end(&after, 0);
    let item = copy_range(&after, 0, stop);
    assert(item@ =~= after@.take(stop as int));
    Some((colon, string_from_chars(&chars_of(module)), string_from_chars(&item)))
}

/// Index of the first `/` in `p` at or after `i`.
pub open spec fn slash_from(p: Seq<char>, i: int) -> Option<int>
    decreases p.len() - i,
{
    if i < 0 || i >= p.len() {
        None
    } else if p[i] == '/' {
        Some(i)
    } else {
        slash_from(p, i + 1)
    }
}

/// A `/` found from `i` on lies at or after `i`, within the path.
pub proof fn lemma_slash_from(p: Seq<char>, i: int)
    ensures
        slash_from(p, i) matches Some(k) ==> i <= k < p.len(),
    decreases p.len() - i,
{
    if 0 <= i < p.len() && p[i] != '/' {
        lemma_slash_from(p, i + 1);
    }
}

/// The pieces of `p[start..]` between slashes.
pub open spec fn pieces_from(p: Seq<char>, start: int) -> Seq<Seq<char>>
    decreases p.len() - start,
{
    if start < 0 || start > p.len() {
        Seq::empty()
    } else {
        match slash_from(p, start) {
            None => seq![p.skip(start)],
            Some(k) => {
                proof {
                    lemma_slash_from(p, start);
                }
                seq![p.subrange(start, k)] + pieces_from(p, k + 1)
            },
        }
    }
}

/// Whether piece `i` of a path is a component: nonempty, and not `.`
/// except as the first piece of a relative path.
pub open spec fn is_component(piece: Seq<char>, i: int, absolute: bool) -> bool {
    piece.len() > 0 && (piece != seq!['.'] || (i == 0 && !absolute))
}

/// The components among `pieces[0..n]`.
pub open spec fn components_upto(pieces: Seq<Seq<char>>, n: int, absolute: bool) -> Seq<Seq<char>>
    decreases if n > 0 { n } else { 0 },
{
    if n <= 0 || n > pieces.len() {
        Seq::empty()
    } else if is_component(pieces[n - 1], n - 1, absolute) {
        components_upto(pieces, n - 1, absolute).push(pieces[n - 1])
    } else {
        components_upto(pieces, n - 1, absolute)
    }
}

/// A path's components as `Path::components` yields them: whether it has
/// a root, and its pieces without empty ones and `.`, a leading `.` of a
/// relative path kept.
pub open spec fn path_components(p: Seq<char>) -> (bool, Seq<Seq<char>>) {
    let absolute = p.len() > 0 && p[0] == '/';
    let pieces = pieces_from(p, 0);
    (absolute, components_upto(pieces, pieces.len() as int, absolute))
}

/// Computes [`path_components`].
fn components_of(path: &str) -> (r: (bool, Vec<Vec<char>>))
    ensures
        r.0 == path_components(path@).0,
        crate::lsp::text::texts(r.1@) == path_components(path@).1,
{
    let p = chars_of(path);
    let absolute = p.len() > 0 && p[0] == '/';
    let mut pieces: Vec<Vec<char>> = Vec::new();
    let mut start: usize = 0;
    let mut i: usize = 0;
    while i < p.len()
        invariant
            start <= i <= p@.len(),
            p@ == path@,
            crate::lsp::text::texts(pieces@) + pieces_from(p@, start as int) == pieces_from(p@, 0),
            slash_from(p@, start as int) == slash_from(p@, i as int),
        decreases p.len() - i,
    {
        if p[i] == '/' {
            let piece = copy_range(&p, start, i);
            let ghost before = crate::lsp::text::texts(pieces@);
            pieces.push(piece);
            assert(crate::lsp::text::texts(pieces@) =~= before.push(piece@));
            assert(before.push(piece@) + pieces_from(p@, i + 1) =~= before + (seq![piece@] + pieces_from(p@, i + 1)));
            start = i + 1;
        }
        i += 1;
    }
    let last = copy_range(&p, start, p.len());
    assert(last@ =~= p@.skip(start as int));
    let ghost before = crate::lsp::text::texts(pieces@);
    pieces.push(last);
    assert(crate::lsp::text::texts(pieces@) =~= before.push(last@));
    assert(before.push(last@) =~= before + seq![p@.skip(start as int)]);
    let ghost all = crate::lsp::text::texts(pieces@);
    let mut comps: Vec<Vec<char>> = Vec::new();
    let mut k: usize = 0;
    while k < pieces.len()
        invariant
            k <= pieces@.len(),
            all == crate::lsp::text::texts(pieces@),
            crate::lsp::text::texts(comps@) == components_upto(all, k as int, absolute),
        decreases pieces.len() - k,
    {
        let piece = &pieces[k];
        assert(all[k as int] == piece@);
        let is_dot = piece.len() == 1 && piece[0] == '.';
        assert(is_dot == (piece@ == seq!['.'])) by {
            if piece@ == seq!['.'] {
                assert(piece@.len() == 1);
            }
            if is_dot {
                assert(piece@ =~= seq!['.']);
            }
        }
        if piece.len() > 0 && (!is_dot || (k == 0 && !absolute)) {
            let copy = copy_range(piece, 0, piece.len());
            assert(copy@ =~= piece@);
            let ghost before = crate::lsp::text::texts(comps@);
            comps.push(copy);
            assert(crate::lsp::text::texts(comps@) =~= before.push(all[k as int]));
        }
        k += 1;
    }
    (absolute, comps)
}

/// Whether two component lists are equal.
fn same_components(a: &Vec<Vec<char>>, b: &Vec<Vec<char>>) -> (r: bool)
    ensures
        r == (crate::lsp::text::texts(a@) == crate::lsp::text::texts(b@)),
{
    if a.len() != b.len() {
        assert(crate::lsp::text::texts(a@).len() != crate::lsp::text::texts(b@).len());
        return false;
    }
    let mut i: usize = 0;
    while i < a.len()
        invariant
            i <= a@.len(),
            a@.len() == b@.len(),
            forall|j: int| 0 <= j < i ==> a@[j]@ == b@[j]@,
        decreases a.len() - i,
    {
        if !crate::lsp::text::same_chars(&a[i], &b[i]) {
            assert(crate::lsp::text::texts(a@)[i as int] != crate::lsp::text::texts(b@)[i as int]);
            return false;
        }
        i += 1;
    }
    assert(crate::lsp::text::texts(a@) =~= crate::lsp::text::texts(b@));
    true
}

/// Whether two paths name the same file: their resolved forms when the file
/// system resolved both (`a_canonical`, `b_canonical`), else the paths
/// themselves, compared component by component.
pub fn same_file(a: &str, b: &str, a_canonical: Option<&str>, b_canonical: Option<&str>) -> (r: bool)
    ensures
        r == match (a_canonical, b_canonical) {
            (Some(x), Some(y)) => path_components(x@) == path_components(y@),
            _ => path_components(a@) == path_components(b@),
        },
{
    let (x, y) = match (a_canonical, b_canonical) {
        (Some(x), Some(y)) => (x, y),
        _ => (a, b),
    };
    let cx = components_of(x);
    let cy = components_of(y);
    let same = cx.0 == cy.0 && same_components(&cx.1, &cy.1);
    assert(same == (path_components(x@) == path_components(y@)));
    same
}

} // verus!
