use vstd::prelude::*;

verus! {

use crate::paths::SitePath;

/// The hex digest that the content hasher assigns to a byte sequence: a
/// fixed function of the bytes alone.
pub uninterp spec fn digest_of(bytes: Seq<u8>) -> Seq<char>;

/// Computes the content hash of a file's raw bytes.
///
/// Relies on sha256::digest: a deterministic, collision-resistant hex digest
/// computed from the bytes alone.
#[verifier::external_body]
pub(crate) fn content_hash(bytes: &Vec<u8>) -> (r: String)
    ensures
        r@ == digest_of(bytes@),
{
    sha256::digest(bytes)
}

/// One recorded file: its path and the digest of its bytes when it was last
/// rendered.
pub struct CacheEntry {
    pub path: SitePath,
    pub hash: String,
}

impl View for CacheEntry {
    type V = (Seq<Seq<char>>, Seq<char>);

    open spec fn view(&self) -> (Seq<Seq<char>>, Seq<char>) {
        (self.path@, self.hash@)
    }
}

pub open spec fn entries_view(v: Seq<CacheEntry>) -> Seq<(Seq<Seq<char>>, Seq<char>)> {
    v.map_values(|e: CacheEntry| e@)
}

/// The digest recorded for a path, if any: the first entry with that path.
pub open spec fn cache_find(
    c: Seq<(Seq<Seq<char>>, Seq<char>)>,
    p: Seq<Seq<char>>,
) -> Option<Seq<char>>
    decreases c.len(),
{
    if c.len() == 0 {
        None
    } else if c[0].0 == p {
        Some(c[0].1)
    } else {
        cache_find(c.skip(1), p)
    }
}

/// The entries after recording digest `h` for path `p`: the first entry for
/// `p` is overwritten, or a new entry is appended.
pub open spec fn cache_insert(
    c: Seq<(Seq<Seq<char>>, Seq<char>)>,
    p: Seq<Seq<char>>,
    h: Seq<char>,
) -> Seq<(Seq<Seq<char>>, Seq<char>)>
    decreases c.len(),
{
    if c.len() == 0 {
        seq![(p, h)]
    } else if c[0].0 == p {
        seq![(p, h)] + c.skip(1)
    } else {
        seq![c[0]] + cache_insert(c.skip(1), p, h)
    }
}

pub open spec fn cache_keys(c: Seq<(Seq<Seq<char>>, Seq<char>)>) -> Seq<Seq<Seq<char>>> {
    c.map_values(|e: (Seq<Seq<char>>, Seq<char>)| e.0)
}

/// Whether a file with the given current bytes is stale: no entry records its
/// path, or the recorded digest differs from the digest of those bytes.
pub open spec fn spec_modified(
    c: Seq<(Seq<Seq<char>>, Seq<char>)>,
    p: Seq<Seq<char>>,
    bytes: Seq<u8>,
) -> bool {
    match cache_find(c, p) {
        None => true,
        Some(h) => h != digest_of(bytes),
    }
}

proof fn lemma_cache_find_skip(c: Seq<(Seq<Seq<char>>, Seq<char>)>, p: Seq<Seq<char>>, i: int)
    requires
        0 <= i <= c.len(),
        forall|j: int| 0 <= j < i ==> c[j].0 != p,
    ensures
        cache_find(c, p) == cache_find(c.skip(i), p),
    decreases i,
{
    if i > 0 {
        lemma_cache_find_skip(c.skip(1), p, i - 1);
        assert(c.skip(1).skip(i - 1) =~~= c.skip(i));
    } else {
        assert(c.skip(0) =~~= c);
    }
}

proof fn lemma_cache_insert_at(
    c: Seq<(Seq<Seq<char>>, Seq<char>)>,
    p: Seq<Seq<char>>,
    h: Seq<char>,
    i: int,
)
    requires
        0 <= i < c.len(),
        forall|j: int| 0 <= j < i ==> c[j].0 != p,
        c[i].0 == p,
    ensures
        cache_insert(c, p, h) == c.update(i, (p, h)),
    decreases i,
{
    if i == 0 {
        assert(seq![(p, h)] + c.skip(1) =~~= c.update(0, (p, h)));
    } else {
        lemma_cache_insert_at(c.skip(1), p, h, i - 1);
        assert(seq![c[0]] + c.skip(1).update(i - 1, (p, h)) =~~= c.update(i, (p, h)));
    }
}

proof fn lemma_cache_insert_absent(
    c: Seq<(Seq<Seq<char>>, Seq<char>)>,
    p: Seq<Seq<char>>,
    h: Seq<char>,
)
    requires
        cache_find(c, p) is None,
    ensures
        cache_insert(c, p, h) == c.push((p, h)),
    decreases c.len(),
{
    if c.len() == 0 {
        assert(seq![(p, h)] =~~= c.push((p, h)));
    } else {
        lemma_cache_insert_absent(c.skip(1), p, h);
        assert(seq![c[0]] + c.skip(1).push((p, h)) =~~= c.push((p, h)));
    }
}

/// Recording a digest for a path makes that digest the one found for it.
pub proof fn lemma_find_after_insert(
    c: Seq<(Seq<Seq<char>>, Seq<char>)>,
    p: Seq<Seq<char>>,
    h: Seq<char>,
)
    ensures
        cache_find(cache_insert(c, p, h), p) == Some(h),
    decreases c.len(),
{
    if c.len() == 0 {
    } else if c[0].0 == p {
        assert((seq![(p, h)] + c.skip(1))[0] == (p, h));
    } else {
        lemma_find_after_insert(c.skip(1), p, h);
        assert((seq![c[0]] + cache_insert(c.skip(1), p, h)).skip(1) =~~= cache_insert(
            c.skip(1),
            p,
            h,
        ));
    }
}

/// Recording a digest for one path leaves what is found for every other
/// path unchanged.
pub proof fn lemma_find_after_insert_other(
    c: Seq<(Seq<Seq<char>>, Seq<char>)>,
    p: Seq<Seq<char>>,
    h: Seq<char>,
    q: Seq<Seq<char>>,
)
    requires
        q != p,
    ensures
        cache_find(cache_insert(c, p, h), q) == cache_find(c, q),
    decreases c.len(),
{
    let r = cache_insert(c, p, h);
    if c.len() == 0 {
        assert(r[0] == (p, h));
        assert(r.skip(1) =~~= Seq::<(Seq<Seq<char>>, Seq<char>)>::empty());
        assert(cache_find(r, q) == cache_find(r.skip(1), q));
    } else if c[0].0 == p {
        assert(r[0] == (p, h));
        assert(r.skip(1) =~~= c.skip(1));
        assert(cache_find(r, q) == cache_find(c.skip(1), q));
        assert(cache_find(c, q) == cache_find(c.skip(1), q));
    } else {
        lemma_find_after_insert_other(c.skip(1), p, h, q);
        assert(r[0] == c[0]);
        assert(r.skip(1) =~~= cache_insert(c.skip(1), p, h));
    }
}

/// A file whose bytes are unchanged since its last recorded update is not
/// modified: updating with some bytes and asking about the same bytes
/// reports the file fresh.
pub proof fn lemma_update_then_unmodified(
    c: Seq<(Seq<Seq<char>>, Seq<char>)>,
    p: Seq<Seq<char>>,
    bytes: Seq<u8>,
)
    ensures
        !spec_modified(cache_insert(c, p, digest_of(bytes)), p, bytes),
{
    lemma_find_after_insert(c, p, digest_of(bytes));
}

/// A newly constructed cache has no entries, so it reports every path
/// modified, whatever bytes the file currently holds.
pub proof fn lemma_empty_cache_all_modified(p: Seq<Seq<char>>, bytes: Seq<u8>)
    ensures
        spec_modified(Seq::empty(), p, bytes),
{
}

/// Whether no two entries record the same path.
pub open spec fn distinct_keys(c: Seq<(Seq<Seq<char>>, Seq<char>)>) -> bool {
    forall|i: int, j: int| 0 <= i < j < c.len() ==> c[i].0 != c[j].0
}

proof fn lemma_insert_keys(c: Seq<(Seq<Seq<char>>, Seq<char>)>, p: Seq<Seq<char>>, h: Seq<char>)
    ensures
        forall|i: int|
            #![trigger cache_insert(c, p, h)[i]]
            0 <= i < cache_insert(c, p, h).len() ==> cache_insert(c, p, h)[i].0 == p || exists|
                j: int,
            | 0 <= j < c.len() && c[j].0 == cache_insert(c, p, h)[i].0,
    decreases c.len(),
{
    let r = cache_insert(c, p, h);
    if c.len() == 0 {
        assert(r[0].0 == p);
    } else if c[0].0 == p {
        assert forall|i: int| 0 <= i < r.len() implies r[i].0 == p || exists|j: int|
            0 <= j < c.len() && c[j].0 == r[i].0 by {
            if i > 0 {
                assert(r[i] == c.skip(1)[i - 1]);
                assert(c[i].0 == r[i].0);
            }
        }
    } else {
        lemma_insert_keys(c.skip(1), p, h);
        let inner = cache_insert(c.skip(1), p, h);
        assert forall|i: int| 0 <= i < r.len() implies r[i].0 == p || exists|j: int|
            0 <= j < c.len() && c[j].0 == r[i].0 by {
            if i == 0 {
                assert(r[0] == c[0]);
                assert(c[0].0 == r[0].0);
            } else {
                assert(r[i] == inner[i - 1]);
                if inner[i - 1].0 != p {
                    let j2 = choose|j2: int|
                        0 <= j2 < c.skip(1).len() && c.skip(1)[j2].0 == inner[i - 1].0;
                    assert(c[j2 + 1].0 == r[i].0);
                }
            }
        }
    }
}

/// Recording a digest keeps the tracked paths distinct: an update
/// overwrites the one entry for its path or appends a fresh path. A cache
/// built by `new` and `update` therefore always has distinct keys — its
/// entries form a map from path to digest, and `files` lists each tracked
/// path exactly once.
pub proof fn lemma_insert_keeps_distinct_keys(
    c: Seq<(Seq<Seq<char>>, Seq<char>)>,
    p: Seq<Seq<char>>,
    h: Seq<char>,
)
    requires
        distinct_keys(c),
    ensures
        distinct_keys(cache_insert(c, p, h)),
    decreases c.len(),
{
    let r = cache_insert(c, p, h);
    if c.len() == 0 {
    } else if c[0].0 == p {
        assert forall|i: int, j: int| 0 <= i < j < r.len() implies r[i].0 != r[j].0 by {
            assert(r[j] == c.skip(1)[j - 1]);
            assert(r[j].0 == c[j].0);
            if i == 0 {
                assert(r[0].0 == p);
                assert(c[0].0 != c[j].0);
            } else {
                assert(r[i].0 == c[i].0);
            }
        }
    } else {
        assert(distinct_keys(c.skip(1)));
        lemma_insert_keeps_distinct_keys(c.skip(1), p, h);
        lemma_insert_keys(c.skip(1), p, h);
        let inner = cache_insert(c.skip(1), p, h);
        assert forall|i: int, j: int| 0 <= i < j < r.len() implies r[i].0 != r[j].0 by {
            if i == 0 {
                assert(r[0] == c[0]);
                assert(r[j] == inner[j - 1]);
                if inner[j - 1].0 == p {
                    assert(c[0].0 != p);
                } else {
                    let j2 = choose|j2: int|
                        0 <= j2 < c.skip(1).len() && c.skip(1)[j2].0 == inner[j - 1].0;
                    assert(c[j2 + 1].0 == inner[j - 1].0);
                    assert(c[0].0 != c[j2 + 1].0);
                }
            } else {
                assert(r[i] == inner[i - 1]);
                assert(r[j] == inner[j - 1]);
            }
        }
    }
}

/// Tracks, for every path that has been rendered, the digest its bytes had;
/// owns the output root that compiled pages are mirrored under.
pub struct Cache {
    path: SitePath,
    files: Vec<CacheEntry>,
}

impl Cache {
    /// The recorded entries, in insertion order.
    pub closed spec fn entries(&self) -> Seq<(Seq<Seq<char>>, Seq<char>)> {
        entries_view(self.files@)
    }

    /// The output root directory that pages are written under.
    pub closed spec fn out_root(&self) -> Seq<Seq<char>> {
        self.path@
    }

    pub fn new(path: SitePath) -> (r: Cache)
        ensures
            r.entries() == Seq::<(Seq<Seq<char>>, Seq<char>)>::empty(),
            r.out_root() == path@,
    {
        let files: Vec<CacheEntry> = Vec::new();
        proof {
            assert(entries_view(files@) =~~= Seq::<(Seq<Seq<char>>, Seq<char>)>::empty());
        }
        Cache { path, files }
    }

    /// All tracked paths, in insertion order.
    pub fn files(&self) -> (r: Vec<SitePath>)
        ensures
            crate::paths::paths_view(r@) == cache_keys(self.entries()),
    {
        let mut r: Vec<SitePath> = Vec::new();
        let n = self.files.len();
        proof {
            assert(crate::paths::paths_view(r@) =~~= cache_keys(self.entries()).take(0));
        }
        for i in 0..n
            invariant
                n == self.files.len(),
                crate::paths::paths_view(r@) == cache_keys(self.entries()).take(i as int),
        {
            let ghost bview = crate::paths::paths_view(r@);
            r.push(self.files[i].path.copy_path());
            proof {
                assert(crate::paths::paths_view(r@) =~~= bview.push(self.files@[i as int].path@));
                assert(cache_keys(self.entries()).take(i as int).push(
                    self.files@[i as int].path@,
                ) =~~= cache_keys(self.entries()).take(i + 1));
            }
        }
        proof {
            assert(cache_keys(self.entries()).take(n as int) =~~= cache_keys(self.entries()));
        }
        r
    }

    pub fn get_path(&self) -> (r: SitePath)
        ensures
            r@ == self.out_root(),
    {
        self.path.copy_path()
    }

    fn find_index(&self, path: &SitePath) -> (r: Option<usize>)
        ensures
            r matches Some(i) ==> i < self.files@.len() && self.files@[i as int].path@ == path@
                && cache_find(self.entries(), path@) == Some(self.files@[i as int].hash@)
                && (forall|j: int| 0 <= j < i ==> self.entries()[j].0 != path@),
            r is None ==> cache_find(self.entries(), path@) is None,
    {
        let n = self.files.len();
        for i in 0..n
            invariant
                n == self.files.len(),
                forall|j: int| 0 <= j < i ==> self.entries()[j].0 != path@,
        {
            if self.files[i].path.equals(path) {
                proof {
                    lemma_cache_find_skip(self.entries(), path@, i as int);
                    assert(self.entries().skip(i as int)[0] == self.entries()[i as int]);
                }
                return Some(i);
            }
        }
        proof {
            lemma_cache_find_skip(self.entries(), path@, n as int);
        }
        None
    }

    /// The digest recorded for a path, if it has one.
    pub fn lookup(&self, path: &SitePath) -> (r: Option<&String>)
        ensures
            r matches Some(h) ==> cache_find(self.entries(), path@) == Some(h@),
            r is None ==> cache_find(self.entries(), path@) is None,
    {
        match self.find_index(path) {
            Some(i) => Some(&self.files[i].hash),
            None => None,
        }
    }

    /// Records the digest of the file's current bytes, overwriting any
    /// earlier entry for the path.
    pub fn update(&mut self, path: &SitePath, bytes: &Vec<u8>)
        ensures
            final(self).entries() == cache_insert(old(self).entries(), path@, digest_of(bytes@)),
            final(self).out_root() == old(self).out_root(),
    {
        let hash = content_hash(bytes);
        let entry = CacheEntry { path: path.copy_path(), hash };
        let ghost before = self.entries();
        match self.find_index(path) {
            Some(i) => {
                self.files.remove(i);
                self.files.insert(i, entry);
                proof {
                    lemma_cache_insert_at(before, path@, digest_of(bytes@), i as int);
                    assert(entries_view(self.files@) =~~= before.update(
                        i as int,
                        (path@, digest_of(bytes@)),
                    ));
                }
            },
            None => {
                self.files.push(entry);
                proof {
                    lemma_cache_insert_absent(before, path@, digest_of(bytes@));
                    assert(entries_view(self.files@) =~~= before.push((path@, digest_of(bytes@))));
                }
            },
        }
    }

    /// Whether the file at `path`, currently holding `bytes`, is stale: it
    /// has no entry, or its recorded digest differs from these bytes'.
    pub fn modified(&self, path: &SitePath, bytes: &Vec<u8>) -> (r: bool)
        ensures
            r == spec_modified(self.entries(), path@, bytes@),
    {
        match self.lookup(path) {
            None => true,
            Some(h) => {
                let current = content_hash(bytes);
                !(*h == current)
            },
        }
    }
}

} // verus!
