//! Line-ending and trailing-whitespace normalization of formatter output.

use vstd::prelude::*;

use crate::chars::{is_whitespace, is_whitespace_spec};

verus! {

/// `s` with every `"\r\n"` replaced by `"\n"`, scanning left to right.
pub open spec fn crlf_to_lf(s: Seq<char>) -> Seq<char>
    decreases s.len(),
{
    if s.len() == 0 {
        s
    } else if s.len() >= 2 && s[0] == '\r' && s[1] == '\n' {
        seq!['\n'] + crlf_to_lf(s.skip(2))
    } else {
        seq![s[0]] + crlf_to_lf(s.skip(1))
    }
}

/// `s` without its trailing whitespace.
pub open spec fn trim_end(s: Seq<char>) -> Seq<char>
    decreases s.len(),
{
    if s.len() > 0 && is_whitespace_spec(s.last()) {
        trim_end(s.drop_last())
    } else {
        s
    }
}

/// What one character becomes when line feeds turn into `"\r\n"`.
pub open spec fn crlf_piece(c: char) -> Seq<char> {
    if c == '\n' {
        seq!['\r', '\n']
    } else {
        seq![c]
    }
}

/// `s` with every `'\n'` replaced by `"\r\n"`.
pub open spec fn lf_to_crlf(s: Seq<char>) -> Seq<char>
    decreases s.len(),
{
    if s.len() == 0 {
        s
    } else {
        lf_to_crlf(s.drop_last()) + crlf_piece(s.last())
    }
}

/// `s` contains `"\r\n"`.
pub open spec fn contains_crlf(s: Seq<char>) -> bool {
    exists|i: int| 0 <= i < s.len() - 1 && #[trigger] s[i] == '\r' && s[i + 1] == '\n'
}

/// `s` ends with a line feed.
pub open spec fn ends_with_lf(s: Seq<char>) -> bool {
    s.len() > 0 && s.last() == '\n'
}

/// The final text for raw formatter output `raw` of `source`: line endings
/// normalized to `"\n"` and trailing whitespace dropped, a final line feed
/// when the source ended with one, and `"\r\n"` line endings when the
/// source used them.
pub open spec fn finalize(raw: Seq<char>, source: Seq<char>) -> Seq<char> {
    let normalized = trim_end(crlf_to_lf(raw));
    let with_newline = if ends_with_lf(source) && !ends_with_lf(normalized) {
        normalized.push('\n')
    } else {
        normalized
    };
    if contains_crlf(source) {
        lf_to_crlf(with_newline)
    } else {
        with_newline
    }
}

/// Computes [`crlf_to_lf`].
pub fn replace_crlf(s: &Vec<char>) -> (r: Vec<char>)
    ensures
        r@ == crlf_to_lf(s@),
{
    let mut out: Vec<char> = Vec::new();
    let mut i: usize = 0;
    assert(s@.skip(0) =~= s@);
    assert(out@ + crlf_to_lf(s@.skip(0)) =~= crlf_to_lf(s@));
    while i < s.len()
        invariant
            i <= s@.len(),
            out@ + crlf_to_lf(s@.skip(i as int)) == crlf_to_lf(s@),
        decreases s.len() - i,
    {
        let ghost rest = s@.skip(i as int);
        if i + 1 < s.len() && s[i] == '\r' && s[i + 1] == '\n' {
            assert(rest.skip(2) =~= s@.skip(i + 2));
            out.push('\n');
            i = i + 2;
        } else {
            assert(rest.skip(1) =~= s@.skip(i + 1));
            out.push(s[i]);
            i = i + 1;
        }
        assert(out@ + crlf_to_lf(s@.skip(i as int)) =~= crlf_to_lf(s@));
    }
    assert(s@.skip(i as int) =~= Seq::<char>::empty());
    assert(out@ + crlf_to_lf(s@.skip(i as int)) =~= out@);
    out
}

/// Computes [`trim_end`] in place.
pub fn trim_end_in_place(s: &mut Vec<char>)
    ensures
        final(s)@ == trim_end(old(s)@),
{
    while s.len() > 0 && is_whitespace(s[s.len() - 1])
        invariant
            trim_end(s@) == trim_end(old(s)@),
        decreases s.len(),
    {
        s.pop();
    }
}

/// Computes [`lf_to_crlf`].
pub fn replace_lf(s: &Vec<char>) -> (r: Vec<char>)
    ensures
        r@ == lf_to_crlf(s@),
{
    let mut out: Vec<char> = Vec::new();
    let mut i: usize = 0;
    while i < s.len()
        invariant
            i <= s@.len(),
            out@ == lf_to_crlf(s@.take(i as int)),
        decreases s.len() - i,
    {
        assert(s@.take(i + 1).drop_last() =~= s@.take(i as int));
        if s[i] == '\n' {
            out.push('\r');
            out.push('\n');
        } else {
            out.push(s[i]);
        }
        assert(out@ =~= lf_to_crlf(s@.take(i + 1)));
        i = i + 1;
    }
    assert(s@.take(s@.len() as int) =~= s@);
    out
}

/// Decides [`contains_crlf`].
pub fn has_crlf(s: &Vec<char>) -> (b: bool)
    ensures
        b == contains_crlf(s@),
{
    let mut i: usize = 0;
    while i < s.len() && i + 1 < s.len()
        invariant
            forall|j: int| 0 <= j < i ==> !(#[trigger] s@[j] == '\r' && s@[j + 1] == '\n'),
        decreases s.len() - i,
    {
        if s[i] == '\r' && s[i + 1] == '\n' {
            return true;
        }
        i = i + 1;
    }
    false
}

/// Computes [`finalize`].
pub fn finalize_output(raw: &Vec<char>, source: &Vec<char>) -> (r: Vec<char>)
    ensures
        r@ == finalize(raw@, source@),
{
    let mut normalized = replace_crlf(raw);
    trim_end_in_place(&mut normalized);
    let source_ends = source.len() > 0 && source[source.len() - 1] == '\n';
    let normalized_ends = normalized.len() > 0 && normalized[normalized.len() - 1] == '\n';
    if source_ends && !normalized_ends {
        normalized.push('\n');
    }
    if has_crlf(source) {
        replace_lf(&normalized)
    } else {
        normalized
    }
}

/// Trimmed text never ends with whitespace.
pub proof fn lemma_trim_end_no_trailing_whitespace(s: Seq<char>)
    ensures
        trim_end(s).len() > 0 ==> !is_whitespace_spec(trim_end(s).last()),
        trim_end(s).len() <= s.len(),
    decreases s.len(),
{
    if s.len() > 0 && is_whitespace_spec(s.last()) {
        lemma_trim_end_no_trailing_whitespace(s.drop_last());
    }
}

/// Converting line feeds keeps a final line feed and adds none.
pub proof fn lemma_lf_to_crlf_ends(s: Seq<char>)
    ensures
        ends_with_lf(lf_to_crlf(s)) <==> ends_with_lf(s),
    decreases s.len(),
{
    if s.len() > 0 {
        lemma_lf_to_crlf_ends(s.drop_last());
    }
}

/// After converting line feeds, every line feed follows a carriage return.
pub proof fn lemma_lf_to_crlf_no_bare_lf(s: Seq<char>)
    ensures
        forall|i: int|
            0 <= i < lf_to_crlf(s).len() && #[trigger] lf_to_crlf(s)[i] == '\n' ==> i > 0
                && lf_to_crlf(s)[i - 1] == '\r',
    decreases s.len(),
{
    if s.len() > 0 {
        lemma_lf_to_crlf_no_bare_lf(s.drop_last());
        let prev = lf_to_crlf(s.drop_last());
        let piece = crlf_piece(s.last());
        assert(lf_to_crlf(s) == prev + piece);
        assert forall|i: int|
            0 <= i < lf_to_crlf(s).len() && #[trigger] lf_to_crlf(s)[i] == '\n' implies i > 0
                && lf_to_crlf(s)[i - 1] == '\r' by {
            if i < prev.len() {
                assert(prev[i] == '\n');
            } else {
                assert(lf_to_crlf(s)[i] == piece[i - prev.len()]);
            }
        }
    }
}

/// The length of the line ending that closes `o`: two for `"\r\n"` in a
/// source that uses them, one for a line feed, none otherwise.
pub open spec fn final_break_len(o: Seq<char>, source: Seq<char>) -> int {
    if ends_with_lf(o) {
        if contains_crlf(source) {
            2
        } else {
            1
        }
    } else {
        0
    }
}

/// The formatted text has no trailing whitespace: before its final line
/// ending (if any) it is empty or ends with a character that is not
/// whitespace.
pub proof fn law_no_trailing_whitespace(raw: Seq<char>, source: Seq<char>)
    ensures
        ({
            let o = finalize(raw, source);
            let n = final_break_len(o, source);
            &&& o.len() >= n
            &&& o.len() > n ==> !is_whitespace_spec(o[o.len() - n - 1])
        }),
{
    let normalized = trim_end(crlf_to_lf(raw));
    lemma_trim_end_no_trailing_whitespace(crlf_to_lf(raw));
    let with_newline = if ends_with_lf(source) && !ends_with_lf(normalized) {
        normalized.push('\n')
    } else {
        normalized
    };
    assert(!ends_with_lf(normalized));
    if contains_crlf(source) {
        lemma_lf_to_crlf_ends(normalized);
        lemma_lf_to_crlf_last(normalized);
        if ends_with_lf(source) {
            assert(with_newline.drop_last() =~= normalized);
            assert(lf_to_crlf(with_newline) == lf_to_crlf(normalized) + seq!['\r', '\n']);
            lemma_lf_to_crlf_ends(with_newline);
        }
    }
}

/// Converting line feeds keeps a last character that is not a line feed.
proof fn lemma_lf_to_crlf_last(s: Seq<char>)
    ensures
        s.len() > 0 && s.last() != '\n' ==> lf_to_crlf(s).len() > 0 && lf_to_crlf(s).last() == s.last(),
        s.len() == 0 ==> lf_to_crlf(s).len() == 0,
{
}

/// The formatted text ends with a line feed exactly when the source does.
pub proof fn law_final_newline_follows_source(raw: Seq<char>, source: Seq<char>)
    ensures
        ends_with_lf(finalize(raw, source)) <==> ends_with_lf(source),
{
    let normalized = trim_end(crlf_to_lf(raw));
    lemma_trim_end_no_trailing_whitespace(crlf_to_lf(raw));
    let with_newline = if ends_with_lf(source) && !ends_with_lf(normalized) {
        normalized.push('\n')
    } else {
        normalized
    };
    assert(!ends_with_lf(normalized));
    assert(ends_with_lf(with_newline) <==> ends_with_lf(source));
    lemma_lf_to_crlf_ends(with_newline);
}

/// When the source uses `"\r\n"` line endings, every line feed of the
/// formatted text follows a carriage return.
pub proof fn law_crlf_sources_keep_crlf(raw: Seq<char>, source: Seq<char>)
    requires
        contains_crlf(source),
    ensures
        forall|i: int|
            0 <= i < finalize(raw, source).len() && #[trigger] finalize(raw, source)[i] == '\n'
                ==> i > 0 && finalize(raw, source)[i - 1] == '\r',
{
    let normalized = trim_end(crlf_to_lf(raw));
    let with_newline = if ends_with_lf(source) && !ends_with_lf(normalized) {
        normalized.push('\n')
    } else {
        normalized
    };
    lemma_lf_to_crlf_no_bare_lf(with_newline);
}

/// `s` contains a carriage return directly before `"\r\n"`.
pub open spec fn contains_cr_crlf(s: Seq<char>) -> bool {
    exists|i: int| 0 <= i < s.len() - 2 && #[trigger] s[i] == '\r' && s[i + 1] == '\r' && s[i + 2] == '\n'
}

/// Replacing `"\r\n"` leaves none behind unless a carriage return stood
/// directly before one.
proof fn lemma_crlf_to_lf_clean(s: Seq<char>)
    requires
        !contains_cr_crlf(s),
    ensures
        !contains_crlf(crlf_to_lf(s)),
        crlf_to_lf(s).len() > 0 && crlf_to_lf(s)[0] == '\n' ==> s[0] == '\n' || (s.len() >= 2 && s[0] == '\r' && s[1] == '\n'),
    decreases s.len(),
{
    if s.len() > 0 {
        let k: int = if s.len() >= 2 && s[0] == '\r' && s[1] == '\n' { 2 } else { 1 };
        let t = s.skip(k);
        assert(!contains_cr_crlf(t)) by {
            if contains_cr_crlf(t) {
                let i = choose|i: int| 0 <= i < t.len() - 2 && #[trigger] t[i] == '\r' && t[i + 1] == '\r' && t[i + 2] == '\n';
                assert(s[i + k] == '\r');
            }
        }
        lemma_crlf_to_lf_clean(t);
        let head: Seq<char> = if k == 2 { seq!['\n'] } else { seq![s[0]] };
        let out = crlf_to_lf(s);
        assert(out == head + crlf_to_lf(t));
        if contains_crlf(out) {
            let i = choose|i: int| 0 <= i < out.len() - 1 && #[trigger] out[i] == '\r' && out[i + 1] == '\n';
            if i == 0 {
                assert(head[0] == '\r');
                assert(k == 1 && s[0] == '\r');
                assert(crlf_to_lf(t)[0] == '\n');
                assert(t[0] == s[1]);
                if t[0] == '\n' {
                    assert(s[1] == '\n');
                } else {
                    assert(s[0] == '\r' && s[1] == '\r' && s[2] == '\n');
                    assert(contains_cr_crlf(s));
                }
            } else {
                assert(crlf_to_lf(t)[i - 1] == '\r' && crlf_to_lf(t)[i] == '\n');
                assert(contains_crlf(crlf_to_lf(t)));
            }
        }
    }
}

/// A prefix of a text without `"\r\n"` has none.
proof fn lemma_trim_end_prefix(s: Seq<char>)
    ensures
        trim_end(s).len() <= s.len(),
        forall|i: int| 0 <= i < trim_end(s).len() ==> #[trigger] trim_end(s)[i] == s[i],
    decreases s.len(),
{
    if s.len() > 0 && is_whitespace_spec(s.last()) {
        lemma_trim_end_prefix(s.drop_last());
    }
}

/// When the source has no `"\r\n"`, neither has the formatted text, unless
/// the raw output held a carriage return directly before `"\r\n"`.
pub proof fn law_lf_sources_keep_lf(raw: Seq<char>, source: Seq<char>)
    requires
        !contains_crlf(source),
        !contains_cr_crlf(raw),
    ensures
        !contains_crlf(finalize(raw, source)),
{
    let lf = crlf_to_lf(raw);
    lemma_crlf_to_lf_clean(raw);
    let normalized = trim_end(lf);
    lemma_trim_end_prefix(lf);
    lemma_trim_end_no_trailing_whitespace(lf);
    assert(!contains_crlf(normalized)) by {
        if contains_crlf(normalized) {
            let i = choose|i: int| 0 <= i < normalized.len() - 1 && #[trigger] normalized[i] == '\r' && normalized[i + 1] == '\n';
            assert(lf[i] == '\r' && lf[i + 1] == '\n');
            assert(contains_crlf(lf));
        }
    }
    let o = finalize(raw, source);
    if ends_with_lf(source) && !ends_with_lf(normalized) {
        assert(o == normalized.push('\n'));
        if contains_crlf(o) {
            let i = choose|i: int| 0 <= i < o.len() - 1 && #[trigger] o[i] == '\r' && o[i + 1] == '\n';
            if i + 1 == normalized.len() {
                assert(normalized.last() == '\r');
                assert(is_whitespace_spec('\r'));
            } else {
                assert(normalized[i] == '\r' && normalized[i + 1] == '\n');
                assert(contains_crlf(normalized));
            }
        }
    } else {
        assert(o == normalized);
    }
}

} // verus!
