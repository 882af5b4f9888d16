//! Stable identities for files, keyed by normalized path.

use vstd::prelude::*;

use crate::chars::{chars_of, str_eq, string_from_chars};
use crate::lsp::vfs::has_verbatim_prefix;

verus! {

/// The identity of an interned file.
#[derive(Debug, Clone, Copy, PartialEq, Eq, Hash, Structural)]
pub struct FileId(pub usize);

/// The path with every leading `\\?\` prefix removed.
pub open spec fn strip_verbatim(p: Seq<char>) -> Seq<char>
    decreases p.len(),
{
    if has_verbatim_prefix(p) {
        strip_verbatim(p.skip(4))
    } else {
        p
    }
}

/// The state of a left-to-right scan of a path: the components kept so
/// far, the segment being read, and how many segments were completed.
pub struct Scan {
    pub comps: Seq<Seq<char>>,
    pub current: Seq<char>,
    pub index: nat,
}

/// Applies one completed segment: empty segments and `.` (except a
/// leading `.` of a relative path) are skipped, `..` drops the last kept
/// component, anything else is kept.
pub open spec fn apply_segment(comps: Seq<Seq<char>>, seg: Seq<char>, index: nat, absolute: bool) -> Seq<
    Seq<char>,
> {
    if seg.len() == 0 {
        comps
    } else if seg == seq!['.'] {
        if index == 0 && !absolute {
            comps.push(seg)
        } else {
            comps
        }
    } else if seg == seq!['.', '.'] {
        if comps.len() > 0 {
            comps.drop_last()
        } else {
            comps
        }
    } else {
        comps.push(seg)
    }
}

/// Scans the characters of a path.
pub open spec fn scan(p: Seq<char>, absolute: bool) -> Scan
    decreases p.len(),
{
    if p.len() == 0 {
        Scan { comps: Seq::empty(), current: Seq::empty(), index: 0 }
    } else {
        let s = scan(p.drop_last(), absolute);
        if p.last() == '/' {
            Scan {
                comps: apply_segment(s.comps, s.current, s.index, absolute),
                current: Seq::empty(),
                index: s.index + 1,
            }
        } else {
            Scan { comps: s.comps, current: s.current.push(p.last()), index: s.index }
        }
    }
}

/// Components joined with `/`.
pub open spec fn join_components(comps: Seq<Seq<char>>) -> Seq<char>
    decreases comps.len(),
{
    if comps.len() == 0 {
        Seq::empty()
    } else if comps.len() == 1 {
        comps[0]
    } else {
        join_components(comps.drop_last()) + seq!['/'] + comps.last()
    }
}

/// The lexical key of a path: verbatim prefixes removed, `.` and empty
/// segments dropped, each `..` cancelling the component before it.
pub open spec fn lexical_key(path: Seq<char>) -> Seq<char> {
    let p = strip_verbatim(path);
    let absolute = p.len() > 0 && p[0] == '/';
    let s = scan(p, absolute);
    let comps = apply_segment(s.comps, s.current, s.index, absolute);
    if absolute {
        seq!['/'] + join_components(comps)
    } else {
        join_components(comps)
    }
}

/// Computes [`strip_verbatim`].
fn strip_verbatim_exec(p: &Vec<char>) -> (r: usize)
    ensures
        r <= p@.len(),
        strip_verbatim(p@) == p@.skip(r as int),
{
    let mut i: usize = 0;
    assert(p@.skip(0) =~= p@);
    while p.len() >= 4 && i <= p.len() - 4 && p[i] == '\\' && p[i + 1] == '\\' && p[i + 2] == '?'
        && p[i + 3] == '\\'
        invariant
            i <= p@.len(),
            strip_verbatim(p@) == strip_verbatim(p@.skip(i as int)),
        decreases p.len() - i,
    {
        let ghost rest = p@.skip(i as int);
        assert(has_verbatim_prefix(rest));
        assert(strip_verbatim(rest) == strip_verbatim(rest.skip(4)));
        assert(rest.skip(4) =~= p@.skip(i + 4));
        i = i + 4;
    }
    proof {
        let rest = p@.skip(i as int);
        if has_verbatim_prefix(rest) {
            assert(rest[0] == p@[i as int]);
            assert(rest[3] == p@[i + 3]);
        }
    }
    i
}

/// Applies [`apply_segment`] to a component list.
fn apply_segment_exec(comps: &mut Vec<Vec<char>>, seg: Vec<char>, index: usize, absolute: bool)
    ensures
        final(comps)@.map_values(|c: Vec<char>| c@) == apply_segment(
            old(comps)@.map_values(|c: Vec<char>| c@),
            seg@,
            index as nat,
            absolute,
        ),
{
    let ghost before = comps@.map_values(|c: Vec<char>| c@);
    if seg.len() == 0 {
    } else if seg.len() == 1 && seg[0] == '.' {
        assert(seg@ =~= seq!['.']);
        if index == 0 && !absolute {
            comps.push(seg);
            assert(comps@.map_values(|c: Vec<char>| c@) =~= before.push(seq!['.']));
        }
    } else if seg.len() == 2 && seg[0] == '.' && seg[1] == '.' {
        assert(seg@ =~= seq!['.', '.']);
        assert(seg@ != seq!['.']);
        if comps.len() > 0 {
            comps.pop();
            assert(comps@.map_values(|c: Vec<char>| c@) =~= before.drop_last());
        }
    } else {
        assert(seg@ != seq!['.']) by {
            if seg@ == seq!['.'] {
                assert(seg@.len() == 1);
            }
        }
        assert(seg@ != seq!['.', '.']) by {
            if seg@ == seq!['.', '.'] {
                assert(seg@.len() == 2);
            }
        }
        let ghost sv = seg@;
        comps.push(seg);
        assert(comps@.map_values(|c: Vec<char>| c@) =~= before.push(sv));
    }
}

/// The lexical key of a path, as computed when the file system cannot
/// resolve it.
pub fn lexical_path_key(path: &str) -> (r: String)
    ensures
        r@ == lexical_key(path@),
{
    let chars = chars_of(path);
    let start = strip_verbatim_exec(&chars);
    let ghost p = chars@.skip(start as int);
    let absolute = start < chars.len() && chars[start] == '/';
    assert(absolute == (p.len() > 0 && p[0] == '/'));
    let mut comps: Vec<Vec<char>> = Vec::new();
    let mut current: Vec<char> = Vec::new();
    let mut index: usize = 0;
    let mut i = start;
    assert(p.subrange(0, 0) =~= Seq::<char>::empty());
    while i < chars.len()
        invariant
            start <= i <= chars@.len(),
            p == chars@.skip(start as int),
            absolute == (p.len() > 0 && p[0] == '/'),
            index <= i - start,
            ({
                let s = scan(p.subrange(0, i - start), absolute);
                &&& comps@.map_values(|c: Vec<char>| c@) == s.comps
                &&& current@ == s.current
                &&& index == s.index
            }),
        decreases chars.len() - i,
    {
        let c = chars[i];
        assert(p.subrange(0, i + 1 - start).drop_last() =~= p.subrange(0, i - start));
        assert(p.subrange(0, i + 1 - start).last() == c);
        if c == '/' {
            let mut seg: Vec<char> = Vec::new();
            std::mem::swap(&mut seg, &mut current);
            apply_segment_exec(&mut comps, seg, index, absolute);
            index = index + 1;
        } else {
            current.push(c);
        }
        i = i + 1;
    }
    assert(p.subrange(0, (chars@.len() - start) as int) =~= p);
    apply_segment_exec(&mut comps, current, index, absolute);
    let mut out: Vec<char> = Vec::new();
    if absolute {
        out.push('/');
    }
    let ghost head = out@;
    let mut k: usize = 0;
    while k < comps.len()
        invariant
            k <= comps@.len(),
            out@ == head + join_components(comps@.map_values(|c: Vec<char>| c@).take(k as int)),
        decreases comps.len() - k,
    {
        let ghost views = comps@.map_values(|c: Vec<char>| c@);
        assert(views.take(k + 1).drop_last() =~= views.take(k as int));
        if k > 0 {
            out.push('/');
        }
        let comp = &comps[k];
        let mut j: usize = 0;
        let ghost mid = out@;
        while j < comp.len()
            invariant
                j <= comp@.len(),
                out@ == mid + comp@.subrange(0, j as int),
            decreases comp.len() - j,
        {
            out.push(comp[j]);
            j += 1;
            assert(out@ =~= mid + comp@.subrange(0, j as int));
        }
        assert(comp@.subrange(0, comp@.len() as int) =~= comp@);
        assert(views.take(k + 1).last() == comp@);
        if k == 0 {
            assert(views.take(1) =~= seq![comp@]);
        }
        assert(out@ =~= head + join_components(views.take(k + 1)));
        k += 1;
    }
    assert(comps@.map_values(|c: Vec<char>| c@).take(comps@.len() as int) =~= comps@.map_values(
        |c: Vec<char>| c@,
    ));
    string_from_chars(&out)
}

/// The key of a path: its resolved form when the file system resolved it,
/// otherwise its lexical key.
pub open spec fn file_key(path: Seq<char>, canonical: Option<Seq<char>>) -> Seq<char> {
    match canonical {
        Some(c) => c,
        None => lexical_key(path),
    }
}

/// Interning `key` into the keys `before` gave identity `id` and left the
/// keys `after`: a known key keeps its identity and changes nothing, a new
/// key is appended and gets the next identity.
pub open spec fn interned(before: Seq<Seq<char>>, key: Seq<char>, id: nat, after: Seq<Seq<char>>) -> bool {
    &&& id < after.len()
    &&& after[id as int] == key
    &&& after.no_duplicates()
    &&& before.contains(key) ==> after == before
    &&& !before.contains(key) ==> after == before.push(key) && id == before.len()
}

/// The characters of an optional string slice.
pub open spec fn opt_chars(o: Option<&str>) -> Option<Seq<char>> {
    match o {
        Some(s) => Some(s@),
        None => None,
    }
}

/// Interned files: each distinct key gets the next identity.
#[derive(Debug)]
pub struct FileInterner {
    paths: Vec<String>,
}

/// No key occurs twice.
pub open spec fn distinct_keys(s: Seq<String>) -> bool {
    forall|i: int, j: int| 0 <= i < s.len() && 0 <= j < s.len() && i != j ==> #[trigger] s[i]@ != #[trigger] s[j]@
}

/// The characters of each key.
pub open spec fn keys_of(s: Seq<String>) -> Seq<Seq<char>> {
    s.map_values(|p: String| p@)
}

impl View for FileInterner {
    type V = Seq<Seq<char>>;

    /// The keys in order of interning; a file's identity is its position.
    closed spec fn view(&self) -> Seq<Seq<char>> {
        keys_of(self.paths@)
    }
}

impl FileInterner {
    /// Keys are distinct.
    pub closed spec fn wf(&self) -> bool {
        distinct_keys(self.paths@)
    }

    /// A well-formed interner holds no key twice.
    pub proof fn lemma_keys_distinct(&self)
        requires
            self.wf(),
        ensures
            self@.no_duplicates(),
    {
        assert forall|i: int, j: int| 0 <= i < self@.len() && 0 <= j < self@.len() && i != j implies self@[i]
            != self@[j] by {
            assert(self@[i] == self.paths@[i]@ && self@[j] == self.paths@[j]@);
        }
    }

    /// An interner with no files.
    pub fn new() -> (f: Self)
        ensures
            f.wf(),
            f@.len() == 0,
            f@.no_duplicates(),
    {
        FileInterner { paths: Vec::new() }
    }

    /// The key of `path`: its resolved form `canonical` when the file
    /// system resolved it, otherwise its lexical key.
    pub fn key(path: &str, canonical: Option<&str>) -> (k: String)
        ensures
            k@ == match canonical {
                Some(c) => c@,
                None => lexical_key(path@),
            },
    {
        match canonical {
            Some(c) => string_from_chars(&chars_of(c)),
            None => lexical_path_key(path),
        }
    }

    /// Position of `key`, if interned.
    fn find(&self, key: &str) -> (r: Option<usize>)
        requires
            self.wf(),
        ensures
            r matches Some(i) ==> i < self.paths@.len() && self.paths@[i as int]@ == key@,
            r is None ==> forall|i: int| 0 <= i < self.paths@.len() ==> #[trigger] self.paths@[i]@ != key@,
    {
        let mut i: usize = 0;
        while i < self.paths.len()
            invariant
                i <= self.paths@.len(),
                forall|j: int| 0 <= j < i ==> #[trigger] self.paths@[j]@ != key@,
            decreases self.paths.len() - i,
        {
            if str_eq(self.paths[i].as_str(), key) {
                return Some(i);
            }
            i += 1;
        }
        None
    }

    /// The identity of the file with key `key`, interning it when new.
    pub fn intern_key(&mut self, key: String) -> (id: FileId)
        requires
            old(self).wf(),
        ensures
            final(self).wf(),
            interned(old(self)@, key@, id.0 as nat, final(self)@),
    {
        match self.find(key.as_str()) {
            Some(i) => {
                assert(keys_of(self.paths@)[i as int] == key@);
                proof {
                    self.lemma_keys_distinct();
                }
                FileId(i)
            },
            None => {
                let ghost before = self.paths@;
                let ghost kv = key@;
                let id = self.paths.len();
                self.paths.push(key);
                assert(self.paths@[id as int]@ == kv);
                proof {
                    assert(keys_of(self.paths@) =~= keys_of(before).push(kv));
                    assert forall|i: int, j: int|
                        0 <= i < self.paths@.len() && 0 <= j < self.paths@.len() && i != j implies #[trigger] self.paths@[i]@
                        != #[trigger] self.paths@[j]@ by {
                        if i < id && j < id {
                            assert(before[i]@ != before[j]@);
                        } else if i < id {
                            assert(self.paths@[i] == before[i]);
                        } else {
                            assert(self.paths@[j] == before[j]);
                        }
                    }
                    let bv = keys_of(before);
                    assert(!bv.contains(kv)) by {
                        if bv.contains(kv) {
                            let i = choose|i: int| 0 <= i < bv.len() && #[trigger] bv[i] == kv;
                            assert(before[i]@ != kv);
                        }
                    }
                    self.lemma_keys_distinct();
                }
                FileId(id)
            },
        }
    }

    /// Interns `path` under its key: `canonical` is the path as the file
    /// system resolves it, when it does.
    pub fn intern(&mut self, path: &str, canonical: Option<&str>) -> (id: FileId)
        requires
            old(self).wf(),
        ensures
            final(self).wf(),
            interned(old(self)@, file_key(path@, opt_chars(canonical)), id.0 as nat, final(self)@),
    {
        let key = Self::key(path, canonical);
        self.intern_key(key)
    }

    /// The identity of `path` under its key, if interned; `canonical` as
    /// for [`FileInterner::intern`]. Keys being distinct, it is the one
    /// identity that key has.
    pub fn get(&self, path: &str, canonical: Option<&str>) -> (r: Option<FileId>)
        requires
            self.wf(),
        ensures
            self@.no_duplicates(),
            r matches Some(id) ==> id.0 < self@.len() && self@[id.0 as int] == file_key(path@, opt_chars(canonical)),
            r is None ==> !self@.contains(file_key(path@, opt_chars(canonical))),
    {
        proof {
            self.lemma_keys_distinct();
        }
        let key = Self::key(path, canonical);
        match self.find(key.as_str()) {
            Some(i) => {
                assert(keys_of(self.paths@)[i as int] == key@);
                Some(FileId(i))
            },
            None => {
                assert(!keys_of(self.paths@).contains(key@)) by {
                    if keys_of(self.paths@).contains(key@) {
                        let i = choose|i: int|
                            0 <= i < keys_of(self.paths@).len() && #[trigger] keys_of(self.paths@)[i]
                                == key@;
                        assert(self.paths@[i]@ == key@);
                    }
                }
                None
            },
        }
    }

    /// The key of an interned file.
    pub fn path(&self, id: FileId) -> (r: Option<&str>)
        ensures
            r is Some <==> id.0 < self@.len(),
            r matches Some(p) ==> p@ == self@[id.0 as int],
    {
        if id.0 < self.paths.len() {
            Some(self.paths[id.0].as_str())
        } else {
            None
        }
    }
}

/// Interning is idempotent: interning a key a second time hands back the
/// identity the first call gave and changes nothing.
pub proof fn law_intern_idempotent(
    before: Seq<Seq<char>>,
    key: Seq<char>,
    first: nat,
    mid: Seq<Seq<char>>,
    second: nat,
    after: Seq<Seq<char>>,
)
    requires
        interned(before, key, first, mid),
        interned(mid, key, second, after),
    ensures
        second == first,
        after == mid,
{
    assert(mid.contains(key)) by {
        assert(mid[first as int] == key);
    }
}

/// An interned key is found again: what `get` answers for a key after
/// `intern` gave it an identity is that identity.
pub proof fn law_get_after_intern(before: Seq<Seq<char>>, key: Seq<char>, id: nat, after: Seq<Seq<char>>, found: nat)
    requires
        interned(before, key, id, after),
        found < after.len(),
        after[found as int] == key,
    ensures
        found == id,
{
}

} // verus!
