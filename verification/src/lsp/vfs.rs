//! The in-memory file table of open documents.

use vstd::prelude::*;

use crate::chars::{chars_of, str_eq, string_from_chars};

verus! {

/// The parts of `p` between slashes, empty ones included.
pub open spec fn split_slash(p: Seq<char>) -> Seq<Seq<char>>
    decreases p.len(),
{
    if p.len() == 0 {
        seq![Seq::empty()]
    } else if p.last() == '/' {
        split_slash(p.drop_last()).push(Seq::empty())
    } else {
        let ps = split_slash(p.drop_last());
        ps.update(ps.len() - 1, ps.last().push(p.last()))
    }
}

/// Part `i` names a component: it is not empty, and it is `.` only at the
/// very start.
pub open spec fn names_component(part: Seq<char>, i: int) -> bool {
    part.len() > 0 && !(part == seq!['.'] && i > 0)
}

/// The parts that name components, in order.
pub open spec fn kept_parts(parts: Seq<Seq<char>>) -> Seq<Seq<char>>
    decreases parts.len(),
{
    if parts.len() == 0 {
        Seq::empty()
    } else {
        let rest = kept_parts(parts.drop_last());
        if names_component(parts.last(), parts.len() - 1) {
            rest.push(parts.last())
        } else {
            rest
        }
    }
}

/// The components of a path, as paths are compared: a leading `/` as the
/// root, then the parts between slashes with empty ones and inner `.` left
/// out. `a//b`, `a/./b` and `a/b/` all have the components of `a/b`.
pub open spec fn path_key(p: Seq<char>) -> Seq<Seq<char>> {
    let root: Seq<Seq<char>> = if p.len() > 0 && p[0] == '/' {
        seq![seq!['/']]
    } else {
        Seq::empty()
    };
    root + kept_parts(split_slash(p))
}

/// The texts of a list of character vectors.
pub open spec fn views(s: Seq<Vec<char>>) -> Seq<Seq<char>> {
    Seq::new(s.len(), |i: int| s[i]@)
}

/// Appends `cur` to `comps` when it names a component as part `idx`.
fn flush_part(comps: &mut Vec<Vec<char>>, cur: Vec<char>, idx: usize)
    ensures
        views(final(comps)@) == if names_component(cur@, idx as int) {
            views(old(comps)@).push(cur@)
        } else {
            views(old(comps)@)
        },
{
    let dot = cur.len() == 1 && cur[0] == '.';
    proof {
        if cur@.len() == 1 {
            assert(dot == (cur@ =~= seq!['.']));
        } else {
            assert(cur@ != seq!['.']);
        }
    }
    if cur.len() > 0 && !(dot && idx > 0) {
        let ghost before = views(comps@);
        comps.push(cur);
        proof {
            assert(views(comps@) =~= before.push(cur@));
        }
    }
}

/// The components of `path`; see [`path_key`].
pub fn path_key_of(path: &str) -> (r: Vec<Vec<char>>)
    ensures
        views(r@) == path_key(path@),
{
    let chars = chars_of(path);
    let mut comps: Vec<Vec<char>> = Vec::new();
    let ghost root: Seq<Seq<char>> = if chars@.len() > 0 && chars@[0] == '/' {
        seq![seq!['/']]
    } else {
        Seq::empty()
    };
    if chars.len() > 0 && chars[0] == '/' {
        let mut slash: Vec<char> = Vec::new();
        slash.push('/');
        assert(slash@ =~= seq!['/']);
        comps.push(slash);
    }
    assert(views(comps@) =~= root);
    let mut cur: Vec<char> = Vec::new();
    let mut idx: usize = 0;
    let mut i: usize = 0;
    let ghost mut done: Seq<Seq<char>> = Seq::empty();
    assert(chars@.take(0) =~= Seq::<char>::empty());
    assert(split_slash(chars@.take(0)) =~= done.push(cur@));
    while i < chars.len()
        invariant
            i <= chars@.len(),
            idx <= i,
            done.len() == idx,
            split_slash(chars@.take(i as int)) == done.push(cur@),
            views(comps@) == root + kept_parts(done),
        decreases chars.len() - i,
    {
        let c = chars[i];
        assert(chars@.take(i + 1).drop_last() =~= chars@.take(i as int));
        if c == '/' {
            let ghost old_cur = cur@;
            let ghost before = views(comps@);
            flush_part(&mut comps, cur, idx);
            proof {
                assert(done.push(old_cur).drop_last() =~= done);
                assert(kept_parts(done.push(old_cur)) == if names_component(old_cur, idx as int) {
                    kept_parts(done).push(old_cur)
                } else {
                    kept_parts(done)
                });
                if names_component(old_cur, idx as int) {
                    assert(views(comps@) =~= root + kept_parts(done.push(old_cur)));
                }
                done = done.push(old_cur);
            }
            cur = Vec::new();
            idx = idx + 1;
            assert(split_slash(chars@.take(i + 1)) =~= done.push(cur@));
        } else {
            let ghost old_cur = cur@;
            cur.push(c);
            assert(split_slash(chars@.take(i + 1)) =~= done.push(cur@));
        }
        i = i + 1;
    }
    assert(chars@.take(i as int) =~= chars@);
    let ghost last = cur@;
    flush_part(&mut comps, cur, idx);
    proof {
        assert(done.push(last).drop_last() =~= done);
        if names_component(last, idx as int) {
            assert(views(comps@) =~= root + kept_parts(done.push(last)));
        }
    }
    comps
}

/// Whether two component lists are the same.
fn keys_eq(a: &Vec<Vec<char>>, b: &Vec<Vec<char>>) -> (r: bool)
    ensures
        r == (views(a@) == views(b@)),
{
    if a.len() != b.len() {
        proof {
            assert(views(a@).len() != views(b@).len());
        }
        return false;
    }
    let mut i: usize = 0;
    while i < a.len()
        invariant
            a@.len() == b@.len(),
            i <= a@.len(),
            forall|j: int| 0 <= j < i ==> a@[j]@ == b@[j]@,
        decreases a.len() - i,
    {
        let x = &a[i];
        let y = &b[i];
        if x.len() != y.len() {
            proof {
                assert(views(a@)[i as int] != views(b@)[i as int]);
            }
            return false;
        }
        let mut k: usize = 0;
        while k < x.len()
            invariant
                x@.len() == y@.len(),
                k <= x@.len(),
                i < a@.len(),
                a@.len() == b@.len(),
                x@ == a@[i as int]@,
                y@ == b@[i as int]@,
                forall|j: int| 0 <= j < k ==> x@[j] == y@[j],
            decreases x.len() - k,
        {
            if x[k] != y[k] {
                proof {
                    assert(x@ != y@);
                    assert(views(a@)[i as int] != views(b@)[i as int]);
                }
                return false;
            }
            k += 1;
        }
        assert(x@ =~= y@);
        i += 1;
    }
    assert(views(a@) =~= views(b@));
    true
}

/// The path-to-text map that a list of entries describes, later entries
/// taking precedence.
pub open spec fn map_of(s: Seq<(String, String)>) -> Map<Seq<Seq<char>>, Seq<char>>
    decreases s.len(),
{
    if s.len() == 0 {
        Map::empty()
    } else {
        map_of(s.drop_last()).insert(path_key(s.last().0@), s.last().1@)
    }
}

/// No path occurs twice among the entries.
pub open spec fn keys_unique(s: Seq<(String, String)>) -> bool {
    forall|i: int, j: int|
        0 <= i < s.len() && 0 <= j < s.len() && i != j ==> #[trigger] path_key(s[i].0@) != #[trigger] path_key(s[j].0@)
}

/// A path is a key of the map exactly when some entry has it.
proof fn lemma_map_of_dom(s: Seq<(String, String)>, k: Seq<Seq<char>>)
    ensures
        map_of(s).dom().contains(k) <==> exists|i: int| 0 <= i < s.len() && #[trigger] path_key(s[i].0@) == k,
    decreases s.len(),
{
    if s.len() > 0 {
        lemma_map_of_dom(s.drop_last(), k);
        if map_of(s.drop_last()).dom().contains(k) {
            let i = choose|i: int| 0 <= i < s.drop_last().len() && #[trigger] path_key(s.drop_last()[i].0@) == k;
            assert(path_key(s[i].0@) == k);
        }
        if exists|i: int| 0 <= i < s.len() && #[trigger] path_key(s[i].0@) == k {
            let i = choose|i: int| 0 <= i < s.len() && #[trigger] path_key(s[i].0@) == k;
            if i < s.len() - 1 {
                assert(path_key(s.drop_last()[i].0@) == k);
            }
        }
    }
}

/// With unique paths, the map gives each entry's text for its path.
proof fn lemma_map_of_value(s: Seq<(String, String)>, i: int)
    requires
        keys_unique(s),
        0 <= i < s.len(),
    ensures
        map_of(s).dom().contains(path_key(s[i].0@)),
        map_of(s)[path_key(s[i].0@)] == s[i].1@,
    decreases s.len(),
{
    if i < s.len() - 1 {
        let t = s.drop_last();
        assert(keys_unique(t)) by {
            assert forall|a: int, b: int|
                0 <= a < t.len() && 0 <= b < t.len() && a != b implies #[trigger] path_key(t[a].0@)
                != #[trigger] path_key(t[b].0@) by {
                assert(path_key(s[a].0@) != path_key(s[b].0@));
            }
        }
        lemma_map_of_value(t, i);
        assert(path_key(s[i].0@) != path_key(s[s.len() - 1].0@));
        assert(t[i] == s[i]);
    }
}

/// Describes a list by its map once the paths are unique.
proof fn lemma_map_of_describes(s: Seq<(String, String)>, k: Seq<Seq<char>>)
    requires
        keys_unique(s),
    ensures
        map_of(s).dom().contains(k) ==> exists|i: int|
            0 <= i < s.len() && path_key(s[i].0@) == k && #[trigger] map_of(s)[k] == s[i].1@,
        !map_of(s).dom().contains(k) ==> forall|i: int| 0 <= i < s.len() ==> #[trigger] path_key(s[i].0@) != k,
{
    lemma_map_of_dom(s, k);
    if map_of(s).dom().contains(k) {
        let i = choose|i: int| 0 <= i < s.len() && #[trigger] path_key(s[i].0@) == k;
        lemma_map_of_value(s, i);
    }
}

/// The in-memory text of open documents, by path.
#[derive(Debug)]
pub struct Vfs {
    files: Vec<(String, String)>,
}

impl View for Vfs {
    type V = Map<Seq<Seq<char>>, Seq<char>>;

    closed spec fn view(&self) -> Map<Seq<Seq<char>>, Seq<char>> {
        map_of(self.files@)
    }
}

/// Position of the entry whose path has the components of `path`, if
/// there is one.
fn find_entry(files: &Vec<(String, String)>, path: &str) -> (r: Option<usize>)
    ensures
        r matches Some(i) ==> i < files@.len() && path_key(files@[i as int].0@) == path_key(path@),
        r is None ==> forall|i: int| 0 <= i < files@.len() ==> #[trigger] path_key(files@[i].0@) != path_key(path@),
{
    let key = path_key_of(path);
    let mut i: usize = 0;
    while i < files.len()
        invariant
            i <= files@.len(),
            views(key@) == path_key(path@),
            forall|j: int| 0 <= j < i ==> #[trigger] path_key(files@[j].0@) != path_key(path@),
        decreases files.len() - i,
    {
        let entry_key = path_key_of(files[i].0.as_str());
        if keys_eq(&entry_key, &key) {
            return Some(i);
        }
        i += 1;
    }
    None
}

/// Copies a string.
fn copy_string(s: &String) -> (r: String)
    ensures
        r@ == s@,
{
    s.clone()
}

impl Vfs {
    /// Paths are unique in the table.
    pub closed spec fn wf(&self) -> bool {
        keys_unique(self.files@)
    }

    /// An empty table.
    pub fn new() -> (v: Self)
        ensures
            v.wf(),
            v@ == Map::<Seq<Seq<char>>, Seq<char>>::empty(),
    {
        Vfs { files: Vec::new() }
    }

    /// Records the text of `path`, replacing what was there.
    pub fn set(&mut self, path: String, source: String)
        requires
            old(self).wf(),
        ensures
            final(self).wf(),
            final(self)@ == old(self)@.insert(path_key(path@), source@),
    {
        let ghost old_files = self.files@;
        match find_entry(&self.files, path.as_str()) {
            Some(i) => {
                self.files.set(i, (path, source));
                proof {
                    let s = self.files@;
                    assert(keys_unique(s)) by {
                        assert forall|a: int, b: int|
                            0 <= a < s.len() && 0 <= b < s.len() && a != b implies #[trigger] path_key(s[a].0@)
                            != #[trigger] path_key(s[b].0@) by {
                            assert(path_key(old_files[a].0@) != path_key(old_files[b].0@));
                        }
                    }
                    assert forall|k: Seq<Seq<char>>|
                        map_of(s).dom().contains(k) == map_of(old_files).insert(
                            path_key(s[i as int].0@),
                            s[i as int].1@,
                        ).dom().contains(k) by {
                        lemma_map_of_dom(s, k);
                        lemma_map_of_dom(old_files, k);
                        if exists|j: int| 0 <= j < old_files.len() && #[trigger] path_key(old_files[j].0@) == k {
                            let j = choose|j: int| 0 <= j < old_files.len() && #[trigger] path_key(old_files[j].0@) == k;
                            if j != i {
                                assert(path_key(s[j].0@) == k);
                            } else {
                                assert(path_key(s[i as int].0@) == k);
                            }
                        }
                        if exists|j: int| 0 <= j < s.len() && #[trigger] path_key(s[j].0@) == k {
                            let j = choose|j: int| 0 <= j < s.len() && #[trigger] path_key(s[j].0@) == k;
                            if j != i {
                                assert(path_key(old_files[j].0@) == k);
                            }
                        }
                    }
                    assert forall|k: Seq<Seq<char>>| #[trigger]
                        map_of(s).dom().contains(k) implies map_of(s)[k] == map_of(old_files).insert(
                            path_key(s[i as int].0@),
                            s[i as int].1@,
                        )[k] by {
                        lemma_map_of_describes(s, k);
                        let j = choose|j: int|
                            0 <= j < s.len() && path_key(s[j].0@) == k && #[trigger] map_of(s)[k] == s[j].1@;
                        if j != i {
                            lemma_map_of_value(old_files, j);
                            assert(old_files[j] == s[j]);
                        }
                    }
                    assert(map_of(s) =~= map_of(old_files).insert(path_key(s[i as int].0@), s[i as int].1@));
                }
            },
            None => {
                self.files.push((path, source));
                proof {
                    let s = self.files@;
                    assert(s.drop_last() =~= old_files);
                    assert(keys_unique(s)) by {
                        assert forall|a: int, b: int|
                            0 <= a < s.len() && 0 <= b < s.len() && a != b implies #[trigger] path_key(s[a].0@)
                            != #[trigger] path_key(s[b].0@) by {
                            if a < old_files.len() && b < old_files.len() {
                                assert(path_key(old_files[a].0@) != path_key(old_files[b].0@));
                            } else if a < old_files.len() {
                                assert(path_key(old_files[a].0@) != path_key(s[b].0@));
                            } else {
                                assert(path_key(old_files[b].0@) != path_key(s[a].0@));
                            }
                        }
                    }
                }
            },
        }
    }

    /// Forgets `path`.
    pub fn remove(&mut self, path: &str)
        requires
            old(self).wf(),
        ensures
            final(self).wf(),
            final(self)@ == old(self)@.remove(path_key(path@)),
    {
        let ghost old_files = self.files@;
        match find_entry(&self.files, path) {
            Some(i) => {
                self.files.remove(i);
                proof {
                    let s = self.files@;
                    assert forall|j: int| 0 <= j < s.len() implies #[trigger] s[j] == if j < i {
                        old_files[j]
                    } else {
                        old_files[j + 1]
                    } by {}
                    assert(keys_unique(s)) by {
                        assert forall|a: int, b: int|
                            0 <= a < s.len() && 0 <= b < s.len() && a != b implies #[trigger] path_key(s[a].0@)
                            != #[trigger] path_key(s[b].0@) by {
                            let oa = if a < i {
                                a
                            } else {
                                a + 1
                            };
                            let ob = if b < i {
                                b
                            } else {
                                b + 1
                            };
                            assert(s[a] == old_files[oa]);
                            assert(s[b] == old_files[ob]);
                            assert(path_key(old_files[oa].0@) != path_key(old_files[ob].0@));
                        }
                    }
                    assert forall|k: Seq<Seq<char>>|
                        map_of(s).dom().contains(k) == map_of(old_files).remove(
                            path_key(path@),
                        ).dom().contains(k) by {
                        lemma_map_of_dom(s, k);
                        lemma_map_of_dom(old_files, k);
                        if exists|j: int| 0 <= j < s.len() && #[trigger] path_key(s[j].0@) == k {
                            let j = choose|j: int| 0 <= j < s.len() && #[trigger] path_key(s[j].0@) == k;
                            let oj = if j < i {
                                j
                            } else {
                                j + 1
                            };
                            assert(path_key(old_files[oj].0@) == k);
                            assert(path_key(old_files[oj].0@) != path_key(old_files[i as int].0@));
                        }
                        if k != path_key(path@) && exists|j: int|
                            0 <= j < old_files.len() && #[trigger] path_key(old_files[j].0@) == k {
                            let j = choose|j: int| 0 <= j < old_files.len() && #[trigger] path_key(old_files[j].0@) == k;
                            if j < i {
                                assert(path_key(s[j].0@) == k);
                            } else {
                                assert(j != i);
                                assert(path_key(s[j - 1].0@) == k);
                            }
                        }
                    }
                    assert forall|k: Seq<Seq<char>>| #[trigger]
                        map_of(s).dom().contains(k) implies map_of(s)[k] == map_of(
                            old_files,
                        ).remove(path_key(path@))[k] by {
                        lemma_map_of_describes(s, k);
                        let j = choose|j: int|
                            0 <= j < s.len() && path_key(s[j].0@) == k && #[trigger] map_of(s)[k] == s[j].1@;
                        let oj = if j < i {
                            j
                        } else {
                            j + 1
                        };
                        lemma_map_of_value(old_files, oj);
                        assert(path_key(old_files[oj].0@) != path_key(old_files[i as int].0@));
                    }
                    assert(map_of(s) =~= map_of(old_files).remove(path_key(path@)));
                }
            },
            None => {
                proof {
                    lemma_map_of_dom(old_files, path_key(path@));
                    assert(map_of(old_files).remove(path_key(path@)) =~= map_of(old_files));
                }
            },
        }
    }

    /// The table's entries: one `(path, text)` pair per document.
    pub fn files(&self) -> (f: &Vec<(String, String)>)
        ensures
            map_of(f@) == self@,
    {
        &self.files
    }

    /// The text recorded for exactly `path`.
    pub fn get(&self, path: &str) -> (r: Option<String>)
        requires
            self.wf(),
        ensures
            r is Some <==> self@.dom().contains(path_key(path@)),
            r matches Some(s) ==> s@ == self@[path_key(path@)],
    {
        proof {
            lemma_map_of_dom(self.files@, path_key(path@));
        }
        match find_entry(&self.files, path) {
            Some(i) => {
                proof {
                    lemma_map_of_value(self.files@, i as int);
                }
                Some(copy_string(&self.files[i].1))
            },
            None => None,
        }
    }

    /// The in-memory text for `path`: the entry for the path itself, else
    /// for its normalized form, else for the normalized form of
    /// `canonical` (the path as the file system resolves it, when it does),
    /// else for the path without its `\\?\` prefix. `None` leaves the
    /// caller to read the file from disk.
    pub fn source(&self, path: &str, canonical: Option<&str>) -> (r: Option<String>)
        requires
            self.wf(),
        ensures
            view_opt(r) == first_hit(self@, source_candidates(path@, opt_view(canonical))),
    {
        let mut candidates: Vec<String> = Vec::new();
        candidates.push(copy_str(path));
        candidates.push(normalize_vfs_path(path));
        match canonical {
            Some(c) => candidates.push(normalize_vfs_path(c)),
            None => {},
        }
        let chars = chars_of(path);
        if chars.len() >= 4 && chars[0] == '\\' && chars[1] == '\\' && chars[2] == '?' && chars[3]
            == '\\' {
            candidates.push(normalize_vfs_path(path));
        }
        assert(candidates@.map_values(|c: String| c@) =~= source_candidates(path@, opt_view(canonical)));
        let mut i: usize = 0;
        assert(candidates@.map_values(|c: String| c@).skip(0) =~= candidates@.map_values(|c: String| c@));
        while i < candidates.len()
            invariant
                i <= candidates@.len(),
                self.wf(),
                candidates@.map_values(|c: String| c@) == source_candidates(path@, opt_view(canonical)),
                first_hit(self@, candidates@.map_values(|c: String| c@)) == first_hit(
                    self@,
                    candidates@.map_values(|c: String| c@).skip(i as int),
                ),
            decreases candidates.len() - i,
        {
            let ghost rest = candidates@.map_values(|c: String| c@).skip(i as int);
            assert(rest[0] == candidates@[i as int]@);
            assert(rest.skip(1) =~= candidates@.map_values(|c: String| c@).skip(i + 1));
            let hit = self.get(candidates[i].as_str());
            if hit.is_some() {
                assert(first_hit(self@, rest) == Some(self@[path_key(rest[0])]));
                return hit;
            }
            i += 1;
        }
        assert(candidates@.map_values(|c: String| c@).skip(i as int) =~= Seq::<Seq<char>>::empty());
        None
    }
}

/// The text of an optional string.
pub open spec fn view_opt(r: Option<String>) -> Option<Seq<char>> {
    match r {
        Some(s) => Some(s@),
        None => None,
    }
}

/// The characters of an optional string slice.
pub open spec fn opt_view(r: Option<&str>) -> Option<Seq<char>> {
    match r {
        Some(s) => Some(s@),
        None => None,
    }
}

/// The paths tried for a document, in order.
pub open spec fn source_candidates(path: Seq<char>, canonical: Option<Seq<char>>) -> Seq<Seq<char>> {
    seq![path, normalized_path(path)] + (match canonical {
        Some(c) => seq![normalized_path(c)],
        None => Seq::empty(),
    }) + if has_verbatim_prefix(path) {
        seq![path.skip(4)]
    } else {
        Seq::empty()
    }
}

/// Copies a string slice into a `String`.
fn copy_str(s: &str) -> (r: String)
    ensures
        r@ == s@,
{
    let chars = chars_of(s);
    string_from_chars(&chars)
}

/// Whether a path starts with the verbatim prefix `\\?\`.
pub open spec fn has_verbatim_prefix(p: Seq<char>) -> bool {
    p.len() >= 4 && p[0] == '\\' && p[1] == '\\' && p[2] == '?' && p[3] == '\\'
}

/// The path without its verbatim prefix, if it has one.
pub open spec fn normalized_path(p: Seq<char>) -> Seq<char> {
    if has_verbatim_prefix(p) {
        p.skip(4)
    } else {
        p
    }
}

/// The text of the first candidate path that the map holds.
pub open spec fn first_hit(m: Map<Seq<Seq<char>>, Seq<char>>, candidates: Seq<Seq<char>>) -> Option<
    Seq<char>,
>
    decreases candidates.len(),
{
    if candidates.len() == 0 {
        None
    } else if m.dom().contains(path_key(candidates[0])) {
        Some(m[path_key(candidates[0])])
    } else {
        first_hit(m, candidates.skip(1))
    }
}

/// Strips the Windows verbatim prefix `\\?\` from a path.
pub fn normalize_vfs_path(path: &str) -> (r: String)
    ensures
        r@ == normalized_path(path@),
{
    let chars = chars_of(path);
    if chars.len() >= 4 && chars[0] == '\\' && chars[1] == '\\' && chars[2] == '?' && chars[3] == '\\' {
        let mut out: Vec<char> = Vec::new();
        let mut i: usize = 4;
        while i < chars.len()
            invariant
                4 <= i <= chars@.len(),
                out@ == chars@.subrange(4, i as int),
            decreases chars.len() - i,
        {
            out.push(chars[i]);
            i += 1;
            assert(out@ =~= chars@.subrange(4, i as int));
        }
        assert(chars@.skip(4) =~= chars@.subrange(4, chars@.len() as int));
        string_from_chars(&out)
    } else {
        string_from_chars(&chars)
    }
}

/// The file system the module resolver sees: open documents first.
#[derive(Debug)]
pub struct LspFileSystem {
    vfs: Vec<(String, String)>,
}

impl LspFileSystem {
    /// Wraps the entries of the in-memory table.
    pub fn new(vfs: Vec<(String, String)>) -> (fs: Self)
        ensures
            fs.entries() == vfs@,
    {
        LspFileSystem { vfs }
    }

    /// The entries it was made with.
    pub closed spec fn entries(&self) -> Seq<(String, String)> {
        self.vfs@
    }

    /// Whether an open document has a path with the components of this
    /// one; the caller also asks the disk.
    pub fn has_document(&self, path: &str) -> (b: bool)
        ensures
            b <==> exists|i: int| 0 <= i < self.entries().len() && #[trigger] path_key(self.entries()[i].0@) == path_key(path@),
    {
        match find_entry(&self.vfs, path) {
            Some(i) => {
                assert(path_key(self.entries()[i as int].0@) == path_key(path@));
                true
            },
            None => false,
        }
    }
}

/// What a read gives back of a write: once `set(path, text)` has run,
/// `get(path)` gives `text`, and every other path reads as before.
pub proof fn law_get_after_set(before: Map<Seq<Seq<char>>, Seq<char>>, path: Seq<Seq<char>>, text: Seq<char>, other: Seq<Seq<char>>)
    ensures
        before.insert(path, text).dom().contains(path),
        before.insert(path, text)[path] == text,
        other != path ==> before.insert(path, text).dom().contains(other) == before.dom().contains(other),
        other != path && before.dom().contains(other) ==> before.insert(path, text)[other] == before[other],
{
}

/// Once `remove(path)` has run, `get(path)` gives nothing, and every other
/// path reads as before.
pub proof fn law_get_after_remove(before: Map<Seq<Seq<char>>, Seq<char>>, path: Seq<Seq<char>>, other: Seq<Seq<char>>)
    ensures
        !before.remove(path).dom().contains(path),
        other != path ==> before.remove(path).dom().contains(other) == before.dom().contains(other),
        other != path && before.dom().contains(other) ==> before.remove(path)[other] == before[other],
{
}

} // verus!
