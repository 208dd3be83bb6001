use vstd::prelude::*;

verus! {

use crate::paths::SitePath;
use crate::render::text_of;

/// One file the caller has read for the library: its path and its raw
/// bytes, or `None` where the file could not be read.
pub struct FileRecord {
    pub path: SitePath,
    pub content: Option<Vec<u8>>,
}

pub open spec fn opt_bytes_view(o: Option<Vec<u8>>) -> Option<Seq<u8>> {
    match o {
        Some(b) => Some(b@),
        None => None,
    }
}

impl View for FileRecord {
    type V = (Seq<Seq<char>>, Option<Seq<u8>>);

    open spec fn view(&self) -> (Seq<Seq<char>>, Option<Seq<u8>>) {
        (self.path@, opt_bytes_view(self.content))
    }
}

/// The current bytes of every file a batch may touch, read by the caller
/// before the batch is processed. The library sees one stable snapshot.
pub struct FileStore {
    pub files: Vec<FileRecord>,
}

impl View for FileStore {
    type V = Seq<(Seq<Seq<char>>, Option<Seq<u8>>)>;

    open spec fn view(&self) -> Seq<(Seq<Seq<char>>, Option<Seq<u8>>)> {
        self.files@.map_values(|r: FileRecord| r@)
    }
}

/// The bytes recorded for a path: the first record with that path, with an
/// unreadable record giving the same answer as an absent one.
pub open spec fn store_find(
    s: Seq<(Seq<Seq<char>>, Option<Seq<u8>>)>,
    p: Seq<Seq<char>>,
) -> Option<Seq<u8>>
    decreases s.len(),
{
    if s.len() == 0 {
        None
    } else if s[0].0 == p {
        s[0].1
    } else {
        store_find(s.skip(1), p)
    }
}

/// The decoded text of the file at `p`, when it is present and valid UTF-8.
pub open spec fn store_text(
    s: Seq<(Seq<Seq<char>>, Option<Seq<u8>>)>,
    p: Seq<Seq<char>>,
) -> Option<Seq<char>> {
    match store_find(s, p) {
        None => None,
        Some(b) => text_of(b),
    }
}

proof fn lemma_store_find_skip(
    s: Seq<(Seq<Seq<char>>, Option<Seq<u8>>)>,
    p: Seq<Seq<char>>,
    i: int,
)
    requires
        0 <= i <= s.len(),
        forall|j: int| 0 <= j < i ==> s[j].0 != p,
    ensures
        store_find(s, p) == store_find(s.skip(i), p),
    decreases i,
{
    if i > 0 {
        lemma_store_find_skip(s.skip(1), p, i - 1);
        assert(s.skip(1).skip(i - 1) =~~= s.skip(i));
    } else {
        assert(s.skip(0) =~~= s);
    }
}

impl FileStore {
    pub fn new() -> (r: FileStore)
        ensures
            r@ == Seq::<(Seq<Seq<char>>, Option<Seq<u8>>)>::empty(),
    {
        let files: Vec<FileRecord> = Vec::new();
        let r = FileStore { files };
        proof {
            assert(r@ =~~= Seq::<(Seq<Seq<char>>, Option<Seq<u8>>)>::empty());
        }
        r
    }

    /// Records what the caller read for one path.
    pub fn add(&mut self, path: SitePath, content: Option<Vec<u8>>)
        ensures
            final(self)@ == old(self)@.push((path@, opt_bytes_view(content))),
    {
        let ghost bview = self@;
        let ghost pv = path@;
        let ghost cv = opt_bytes_view(content);
        self.files.push(FileRecord { path, content });
        proof {
            assert(self@ =~~= bview.push((pv, cv)));
        }
    }

    /// The bytes held for a path, if it was read successfully.
    pub fn find(&self, path: &SitePath) -> (r: Option<&Vec<u8>>)
        ensures
            r matches Some(b) ==> store_find(self@, path@) == Some(b@),
            r is None ==> store_find(self@, path@) is None,
    {
        let n = self.files.len();
        for i in 0..n
            invariant
                n == self.files.len(),
                forall|j: int| 0 <= j < i ==> self@[j].0 != path@,
        {
            proof {
                assert(self@[i as int] == (self.files@[i as int].path@, opt_bytes_view(
                    self.files@[i as int].content,
                )));
            }
            if self.files[i].path.equals(path) {
                proof {
                    lemma_store_find_skip(self@, path@, i as int);
                    assert(self@.skip(i as int)[0] == self@[i as int]);
                }
                match &self.files[i].content {
                    Some(b) => {
                        return Some(b);
                    },
                    None => {
                        return None;
                    },
                }
            }
        }
        proof {
            lemma_store_find_skip(self@, path@, n as int);
            assert(self@.len() == n);
        }
        None
    }
}

} // verus!
