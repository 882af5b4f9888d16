//! Decisions of the compiler driver that do not touch the disk: where a
//! project's entry file may be, which one is taken, and the module errors
//! reported on the way.

use vstd::prelude::*;

use crate::chars::{chars_of, string_from_chars};

verus! {

/// A module-resolution failure, with its message.
#[derive(Debug)]
pub struct ModuleError {
    pub message: String,
}

impl ModuleError {
    /// The error's text, as its `Display` shows it.
    pub fn message(&self) -> (s: &String)
        ensures
            s@ == self.message@,
    {
        &self.message
    }
}

/// `name` inside the directory `dir`, as `Path::join` forms it for a
/// relative single-component `name`: no separator after an empty directory
/// or one that already ends in `/`.
pub open spec fn join_path(dir: Seq<char>, name: Seq<char>) -> Seq<char> {
    if dir.len() == 0 || dir.last() == '/' {
        dir + name
    } else {
        dir + seq!['/'] + name
    }
}

/// The entry file names, in the order they are looked for.
pub open spec fn entry_names() -> Seq<Seq<char>> {
    seq![seq!['m', 'a', 'i', 'n', '.', 'v', 'n'], seq!['l', 'i', 'b', '.', 'v', 'n']]
}

/// The paths an entry file may have in `source_root`, in the order they
/// are looked for.
pub open spec fn entry_candidates_spec(source_root: Seq<char>) -> Seq<Seq<char>> {
    entry_names().map_values(|n: Seq<char>| join_path(source_root, n))
}

/// Texts of strings.
pub open spec fn texts_of(v: Seq<String>) -> Seq<Seq<char>> {
    v.map_values(|s: String| s@)
}

/// Appends the characters of `b` to `a`.
fn append(a: &mut Vec<char>, b: &Vec<char>)
    ensures
        final(a)@ == old(a)@ + b@,
{
    let mut i: usize = 0;
    let ghost start = a@;
    while i < b.len()
        invariant
            i <= b@.len(),
            a@ == start + b@.take(i as int),
        decreases b.len() - i,
    {
        a.push(b[i]);
        i += 1;
        assert(a@ =~= start + b@.take(i as int));
    }
    assert(b@.take(i as int) =~= b@);
}

/// Forms [`join_path`].
pub(crate) fn join(dir: &Vec<char>, name: &Vec<char>) -> (r: String)
    ensures
        r@ == join_path(dir@, name@),
{
    let mut out: Vec<char> = Vec::new();
    append(&mut out, dir);
    if dir.len() > 0 && dir[dir.len() - 1] != '/' {
        out.push('/');
    }
    append(&mut out, name);
    assert(out@ =~= join_path(dir@, name@));
    string_from_chars(&out)
}

/// The paths an entry file may have in `source_root`: `main.vn`, then
/// `lib.vn`.
pub fn entry_candidates(source_root: &str) -> (r: Vec<String>)
    ensures
        texts_of(r@) == entry_candidates_spec(source_root@),
{
    let root = chars_of(source_root);
    let main_name = vec!['m', 'a', 'i', 'n', '.', 'v', 'n'];
    let lib_name = vec!['l', 'i', 'b', '.', 'v', 'n'];
    let mut out: Vec<String> = Vec::new();
    out.push(join(&root, &main_name));
    out.push(join(&root, &lib_name));
    assert(main_name@ =~= entry_names()[0]);
    assert(lib_name@ =~= entry_names()[1]);
    assert(texts_of(out@) =~= entry_candidates_spec(source_root@));
    out
}

/// Index of the first `true` in `exists`.
pub open spec fn first_true(exists: Seq<bool>) -> Option<int> {
    if exists.contains(true) {
        Some(choose|i: int| 0 <= i < exists.len() && exists[i] && forall|j: int| 0 <= j < i ==> !exists[j])
    } else {
        None
    }
}

/// The entry file of a project directory: the first candidate of
/// [`entry_candidates`] that exists, where `exists[i]` says whether
/// `candidates[i]` is on disk.
pub fn find_entry_file(candidates: &Vec<String>, exists: &Vec<bool>) -> (r: Option<String>)
    requires
        exists@.len() == candidates@.len(),
    ensures
        match first_true(exists@) {
            Some(i) => r matches Some(p) && p@ == candidates@[i]@,
            None => r is None,
        },
{
    let mut i: usize = 0;
    while i < candidates.len()
        invariant
            i <= candidates@.len(),
            exists@.len() == candidates@.len(),
            forall|j: int| 0 <= j < i ==> !exists@[j],
        decreases candidates.len() - i,
    {
        if exists[i] {
            proof {
                let k = choose|k: int| 0 <= k < exists@.len() && exists@[k] && forall|j: int| 0 <= j < k ==> !exists@[j];
                assert(k == i) by {
                    if k < i {
                        assert(!exists@[k]);
                    } else if k > i {
                        assert(!exists@[i as int]);
                    }
                }
            }
            return Some(string_from_chars(&chars_of(candidates[i].as_str())));
        }
        i += 1;
    }
    assert(!exists@.contains(true)) by {
        if exists@.contains(true) {
            let k = choose|k: int| 0 <= k < exists@.len() && exists@[k] == true;
            assert(!exists@[k]);
        }
    }
    None
}

/// The text of the error for a directory without an entry file.
pub open spec fn no_entry_message(dir: Seq<char>) -> Seq<char> {
    seq!['n', 'o', ' ', 'e', 'n', 't', 'r', 'y', ' ', 'f', 'i', 'l', 'e', ' ', 'f', 'o', 'u', 'n', 'd', ' ', 'i', 'n', ' ', '`']
        + dir + seq!['`', ' ', '(', 'l', 'o', 'o', 'k', 'e', 'd', ' ', 'f', 'o', 'r', ' ', 'm', 'a', 'i', 'n', '.', 'v', 'n', ',', ' ', 'l', 'i', 'b', '.', 'v', 'n', ')']
}

/// The error reported when a directory holds no entry file.
pub fn no_entry_error(dir: &str) -> (e: ModuleError)
    ensures
        e.message@ == no_entry_message(dir@),
{
    let mut out = vec!['n', 'o', ' ', 'e', 'n', 't', 'r', 'y', ' ', 'f', 'i', 'l', 'e', ' ', 'f', 'o', 'u', 'n', 'd', ' ', 'i', 'n', ' ', '`'];
    append(&mut out, &chars_of(dir));
    let tail = vec!['`', ' ', '(', 'l', 'o', 'o', 'k', 'e', 'd', ' ', 'f', 'o', 'r', ' ', 'm', 'a', 'i', 'n', '.', 'v', 'n', ',', ' ', 'l', 'i', 'b', '.', 'v', 'n', ')'];
    append(&mut out, &tail);
    assert(out@ =~= no_entry_message(dir@));
    ModuleError { message: string_from_chars(&out) }
}

} // verus!
