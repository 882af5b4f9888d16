//! Decisions of a workspace update that do not touch the disk: where the
//! workspace's entry file is looked for, which one is taken, and which
//! files' diagnostics are cleared or kept.

use vstd::prelude::*;

use crate::chars::{chars_of, string_from_chars};
use crate::compiler::{find_entry_file, first_true, join, join_path, texts_of};

verus! {

/// `main.vn`.
pub open spec fn main_name() -> Seq<char> {
    seq!['m', 'a', 'i', 'n', '.', 'v', 'n']
}

/// `lib.vn`.
pub open spec fn lib_name() -> Seq<char> {
    seq!['l', 'i', 'b', '.', 'v', 'n']
}

/// The entry candidates of the directories `dirs`, farthest last: `main.vn`
/// then `lib.vn` of each.
pub open spec fn dir_candidates(dirs: Seq<Seq<char>>) -> Seq<Seq<char>>
    decreases dirs.len(),
{
    if dirs.len() == 0 {
        Seq::empty()
    } else {
        dir_candidates(dirs.drop_last()) + seq![
            join_path(dirs.last(), main_name()),
            join_path(dirs.last(), lib_name()),
        ]
    }
}

/// Where an update looks for the entry file, in order: `src/main.vn` and
/// `src/lib.vn` of the workspace root when it has a manifest, else its
/// `main.vn` and `lib.vn`; then those of each directory above the changed
/// file, nearest first.
pub open spec fn update_candidates_spec(root: Seq<char>, manifest: bool, ancestors: Seq<Seq<char>>) -> Seq<Seq<char>> {
    let prefix = if manifest {
        seq!['s', 'r', 'c', '/']
    } else {
        Seq::empty()
    };
    seq![join_path(root, prefix + main_name()), join_path(root, prefix + lib_name())] + dir_candidates(ancestors)
}

/// The candidates of [`update_candidates_spec`].
pub fn update_candidates(root: &str, manifest: bool, ancestors: &Vec<String>) -> (r: Vec<String>)
    ensures
        texts_of(r@) == update_candidates_spec(root@, manifest, texts_of(ancestors@)),
{
    let root_chars = chars_of(root);
    let main = vec!['m', 'a', 'i', 'n', '.', 'v', 'n'];
    let lib = vec!['l', 'i', 'b', '.', 'v', 'n'];
    let (root_main, root_lib) = if manifest {
        (vec!['s', 'r', 'c', '/', 'm', 'a', 'i', 'n', '.', 'v', 'n'], vec!['s', 'r', 'c', '/', 'l', 'i', 'b', '.', 'v', 'n'])
    } else {
        (vec!['m', 'a', 'i', 'n', '.', 'v', 'n'], vec!['l', 'i', 'b', '.', 'v', 'n'])
    };
    let ghost prefix = if manifest {
        seq!['s', 'r', 'c', '/']
    } else {
        Seq::<char>::empty()
    };
    assert(root_main@ =~= prefix + main_name());
    assert(root_lib@ =~= prefix + lib_name());
    assert(main@ =~= main_name());
    assert(lib@ =~= lib_name());
    let mut out: Vec<String> = Vec::new();
    out.push(join(&root_chars, &root_main));
    out.push(join(&root_chars, &root_lib));
    let ghost head = texts_of(out@);
    assert(head =~= seq![join_path(root@, prefix + main_name()), join_path(root@, prefix + lib_name())]);
    let mut i: usize = 0;
    while i < ancestors.len()
        invariant
            i <= ancestors@.len(),
            main@ == main_name(),
            lib@ == lib_name(),
            texts_of(out@) == head + dir_candidates(texts_of(ancestors@).take(i as int)),
        decreases ancestors.len() - i,
    {
        let dir = chars_of(ancestors[i].as_str());
        let ghost before = out@;
        out.push(join(&dir, &main));
        out.push(join(&dir, &lib));
        let ghost dirs = texts_of(ancestors@).take(i + 1);
        assert(dirs.drop_last() =~= texts_of(ancestors@).take(i as int));
        assert(dirs.last() == ancestors@[i as int]@);
        assert(texts_of(out@) =~= texts_of(before) + seq![
            join_path(dirs.last(), main_name()),
            join_path(dirs.last(), lib_name()),
        ]);
        i += 1;
    }
    assert(texts_of(ancestors@).take(i as int) =~= texts_of(ancestors@));
    out
}

/// The entry file of an update: the first candidate that exists (as an
/// open document or on disk, `exists[i]` for `candidates[i]`), else the
/// changed file itself.
pub fn update_entry(candidates: &Vec<String>, exists: &Vec<bool>, changed: &str) -> (r: String)
    requires
        exists@.len() == candidates@.len(),
    ensures
        r@ == match first_true(exists@) {
            Some(i) => candidates@[i]@,
            None => changed@,
        },
{
    match find_entry_file(candidates, exists) {
        Some(p) => p,
        None => string_from_chars(&chars_of(changed)),
    }
}

/// Whether the changed file's diagnostics must be cleared: it had
/// diagnostics before the update and has none after it.
pub fn should_clear(previous: &[usize], current: &[usize], changed: usize) -> (b: bool)
    ensures
        b == (previous@.contains(changed) && !current@.contains(changed)),
{
    contains(previous, changed) && !contains(current, changed)
}

/// Whether `xs` holds `x`.
fn contains(xs: &[usize], x: usize) -> (b: bool)
    ensures
        b == xs@.contains(x),
{
    let mut i: usize = 0;
    while i < xs.len()
        invariant
            i <= xs@.len(),
            forall|j: int| 0 <= j < i ==> xs@[j] != x,
        decreases xs.len() - i,
    {
        if xs[i] == x {
            return true;
        }
        i += 1;
    }
    false
}

/// The files that have diagnostics after an update: those with
/// diagnostics now, and the entry file (`entry`, when it has diagnostics
/// and an identity) if not among them.
pub fn next_diagnostic_files(current: &Vec<usize>, entry: Option<usize>) -> (r: Vec<usize>)
    ensures
        r@ == match entry {
            Some(id) => if current@.contains(id) {
                current@
            } else {
                current@.push(id)
            },
            None => current@,
        },
{
    let mut out = current.clone();
    assert(out@ == current@);
    match entry {
        Some(id) => {
            if !contains(current.as_slice(), id) {
                out.push(id);
            }
        },
        None => {},
    }
    out
}

} // verus!
