//! Document synchronisation: applying the client's content changes to the
//! text of an open document.

use vstd::prelude::*;
use vstd::string::StringSliceAdditionalSpecFns;
use vstd::utf8::*;

use crate::chars::{chars_of, string_from_chars};
use crate::lsp::position::{checked_offset_at, offset_at, offset_fits, offset_spec, LineIndex, Range};
use crate::lsp::text::{slice_str, text_between};

verus! {

broadcast use vstd::utf8::group_utf8_lib;

/// One change the client reports: the text that replaces a range, or the
/// whole document when there is no range.
#[derive(Debug)]
pub struct ContentChange {
    pub range: Option<Range>,
    pub text: String,
}

/// The document after one change, `None` where applying it would need a
/// line index over a text of `u32::MAX` bytes or more, or an offset beyond
/// `u32`. A ranged change applies only when its ends are in order, within
/// the text and at character boundaries; otherwise the text stays.
pub open spec fn apply_change(src: Seq<char>, range: Option<Range>, text: Seq<char>) -> Option<Seq<char>> {
    match range {
        None => Some(text),
        Some(r) => {
            let b = encode_utf8(src);
            if b.len() >= u32::MAX || !offset_fits(b, r.start) || !offset_fits(b, r.end) {
                None
            } else {
                let s = offset_spec(b, r.start);
                let e = offset_spec(b, r.end);
                if s <= e && e <= b.len() && is_char_boundary(b, s) && is_char_boundary(b, e) {
                    Some(text_between(b, 0, s) + text + text_between(b, e, b.len() as int))
                } else {
                    Some(src)
                }
            }
        },
    }
}

/// The document after the changes `changes[i..]`, applied in order.
pub open spec fn apply_changes_from(src: Seq<char>, changes: Seq<ContentChange>, i: int) -> Option<Seq<char>>
    decreases changes.len() - i,
{
    if i < 0 || i >= changes.len() {
        Some(src)
    } else {
        match apply_change(src, changes[i].range, changes[i].text@) {
            Some(next) => apply_changes_from(next, changes, i + 1),
            None => None,
        }
    }
}

/// Applies one change; see [`apply_change`].
fn apply_one(source: String, change: &ContentChange) -> (r: Option<String>)
    ensures
        match r {
            Some(s) => apply_change(source@, change.range, change.text@) == Some(s@),
            None => apply_change(source@, change.range, change.text@) is None,
        },
{
    match change.range {
        None => Some(string_from_chars(&chars_of(change.text.as_str()))),
        Some(range) => {
            let text = source.as_str();
            let bytes = text.as_bytes();
            if bytes.len() >= 0xffff_ffff {
                return None;
            }
            let line_index = LineIndex::new(text);
            let start = match checked_offset_at(&line_index, range.start) {
                Some(s) => s,
                None => return None,
            };
            let end = match checked_offset_at(&line_index, range.end) {
                Some(e) => e,
                None => return None,
            };
            if start <= end && end <= bytes.len() && text.is_char_boundary(start) && text.is_char_boundary(end) {
                let mut out = chars_of(slice_str(text, 0, start));
                let middle = chars_of(change.text.as_str());
                let tail = chars_of(slice_str(text, end, bytes.len()));
                let ghost head = out@;
                let mut i: usize = 0;
                while i < middle.len()
                    invariant
                        i <= middle@.len(),
                        out@ == head + middle@.take(i as int),
                    decreases middle.len() - i,
                {
                    out.push(middle[i]);
                    i += 1;
                    assert(out@ =~= head + middle@.take(i as int));
                }
                assert(middle@.take(i as int) =~= middle@);
                let ghost with_middle = out@;
                let mut j: usize = 0;
                while j < tail.len()
                    invariant
                        j <= tail@.len(),
                        out@ == with_middle + tail@.take(j as int),
                    decreases tail.len() - j,
                {
                    out.push(tail[j]);
                    j += 1;
                    assert(out@ =~= with_middle + tail@.take(j as int));
                }
                assert(tail@.take(j as int) =~= tail@);
                Some(string_from_chars(&out))
            } else {
                Some(source)
            }
        },
    }
}

/// The document after the changes, applied in order, `None` when one of
/// them cannot be applied; see [`apply_changes_from`].
pub fn checked_apply_content_changes(source: String, changes: &[ContentChange]) -> (r: Option<String>)
    ensures
        match r {
            Some(s) => apply_changes_from(source@, changes@, 0) == Some(s@),
            None => apply_changes_from(source@, changes@, 0) is None,
        },
{
    let mut current = source;
    let ghost initial = current@;
    let mut i: usize = 0;
    while i < changes.len()
        invariant
            i <= changes@.len(),
            initial == source@,
            apply_changes_from(initial, changes@, 0) == apply_changes_from(current@, changes@, i as int),
        decreases changes.len() - i,
    {
        match apply_one(current, &changes[i]) {
            Some(next) => {
                current = next;
            },
            None => return None,
        }
        i += 1;
    }
    Some(current)
}

/// The document after the changes, applied in order; see
/// [`apply_changes_from`]. Requires that each change can be applied, which
/// [`checked_apply_content_changes`] tests instead.
pub fn apply_content_changes(source: String, changes: &[ContentChange]) -> (r: String)
    requires
        apply_changes_from(source@, changes@, 0) is Some,
    ensures
        apply_changes_from(source@, changes@, 0) == Some(r@),
{
    checked_apply_content_changes(source, changes).unwrap()
}

/// A change without a range replaces the whole document with its text.
pub proof fn law_full_change_replaces(src: Seq<char>, text: Seq<char>)
    ensures
        apply_change(src, None, text) == Some(text),
{
}

/// Whatever came before, the document after a list of changes ending in a
/// full replacement is that replacement's text.
pub proof fn law_last_full_change_wins(src: Seq<char>, changes: Seq<ContentChange>)
    requires
        changes.len() > 0,
        changes.last().range is None,
        apply_changes_from(src, changes, 0) is Some,
    ensures
        apply_changes_from(src, changes, 0) == Some(changes.last().text@),
{
    lemma_last_full_change(src, changes, 0);
}

/// From any step on, a list of changes ending in a full replacement ends
/// with that replacement's text.
proof fn lemma_last_full_change(src: Seq<char>, changes: Seq<ContentChange>, i: int)
    requires
        0 <= i < changes.len(),
        changes.last().range is None,
        apply_changes_from(src, changes, i) is Some,
    ensures
        apply_changes_from(src, changes, i) == Some(changes.last().text@),
    decreases changes.len() - i,
{
    if i < changes.len() - 1 {
        let next = apply_change(src, changes[i].range, changes[i].text@).unwrap();
        lemma_last_full_change(next, changes, i + 1);
    } else {
        assert(changes[i] == changes.last());
        assert(apply_changes_from(changes.last().text@, changes, i + 1) == Some(changes.last().text@));
    }
}

} // verus!
