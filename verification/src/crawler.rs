use vstd::prelude::*;

verus! {

use crate::paths::{SitePath, path_is_markdown};

/// An absolute, canonicalized path to one markdown document found by a
/// crawl.
pub struct CrawledFile {
    pub path: SitePath,
}

/// One entry of a crawled directory: a markdown file, or a subdirectory.
pub enum CrawledEntry {
    File(CrawledFile),
    Dir(CrawledDir),
}

/// A crawled directory: the markdown files and subdirectories below it.
pub struct CrawledDir {
    pub entries: Vec<CrawledEntry>,
}

/// A raw directory listing, as the caller's filesystem walk hands it in:
/// every regular file, markdown or not, and every subdirectory.
pub enum FsEntry {
    File(SitePath),
    Dir(FsDir),
}

pub struct FsDir {
    pub entries: Vec<FsEntry>,
}

pub open spec fn files_view(s: Seq<CrawledFile>) -> Seq<Seq<Seq<char>>> {
    s.map_values(|f: CrawledFile| f.path@)
}

/// The paths of a crawled tree, in preorder: files of each directory in
/// entry order, subdirectories expanded in place.
pub open spec fn spec_flatten_list(es: Seq<CrawledEntry>) -> Seq<Seq<Seq<char>>>
    decreases es,
{
    if es.len() == 0 {
        Seq::empty()
    } else {
        spec_flatten_entry(es[0]) + spec_flatten_list(es.skip(1))
    }
}

pub open spec fn spec_flatten_entry(e: CrawledEntry) -> Seq<Seq<Seq<char>>>
    decreases e,
{
    match e {
        CrawledEntry::File(f) => seq![f.path@],
        CrawledEntry::Dir(d) => spec_flatten_list(d.entries@),
    }
}

/// The markdown files of a raw tree, in preorder.
pub open spec fn spec_md_files_list(es: Seq<FsEntry>) -> Seq<Seq<Seq<char>>>
    decreases es,
{
    if es.len() == 0 {
        Seq::empty()
    } else {
        spec_md_files_entry(es[0]) + spec_md_files_list(es.skip(1))
    }
}

pub open spec fn spec_md_files_entry(e: FsEntry) -> Seq<Seq<Seq<char>>>
    decreases e,
{
    match e {
        FsEntry::File(p) => if path_is_markdown(p@) {
            seq![p@]
        } else {
            Seq::empty()
        },
        FsEntry::Dir(d) => spec_md_files_list(d.entries@),
    }
}

proof fn lemma_flatten_push(s: Seq<CrawledEntry>, e: CrawledEntry)
    ensures
        spec_flatten_list(s.push(e)) == spec_flatten_list(s) + spec_flatten_entry(e),
    decreases s,
{
    if s.len() == 0 {
        assert(s.push(e)[0] == e);
        assert(s.push(e).skip(1) =~~= Seq::<CrawledEntry>::empty());
        assert(spec_flatten_list(s.push(e)) == spec_flatten_entry(e) + spec_flatten_list(
            Seq::<CrawledEntry>::empty(),
        ));
        assert(spec_flatten_entry(e) + Seq::<Seq<Seq<char>>>::empty() =~~= spec_flatten_entry(e));
        assert(spec_flatten_list(s) + spec_flatten_entry(e) =~~= spec_flatten_entry(e));
    } else {
        lemma_flatten_push(s.skip(1), e);
        assert(s.push(e).skip(1) =~~= s.skip(1).push(e));
        assert(s.push(e)[0] == s[0]);
        assert(spec_flatten_list(s.push(e)) == spec_flatten_entry(s[0]) + (spec_flatten_list(
            s.skip(1),
        ) + spec_flatten_entry(e)));
        assert(spec_flatten_entry(s[0]) + (spec_flatten_list(s.skip(1)) + spec_flatten_entry(e))
            =~~= (spec_flatten_entry(s[0]) + spec_flatten_list(s.skip(1))) + spec_flatten_entry(
            e,
        ));
    }
}

/// Every path that a crawl of a raw tree produces is a markdown file: the
/// crawl returns the markdown documents and nothing else.
pub proof fn lemma_md_files_all_markdown(es: Seq<FsEntry>)
    ensures
        forall|j: int|
            0 <= j < spec_md_files_list(es).len() ==> path_is_markdown(
                #[trigger] spec_md_files_list(es)[j],
            ),
    decreases es,
{
    if es.len() == 0 {
    } else {
        lemma_md_files_entry_all_markdown(es[0]);
        lemma_md_files_all_markdown(es.skip(1));
        let head = spec_md_files_entry(es[0]);
        let tail = spec_md_files_list(es.skip(1));
        assert forall|j: int| 0 <= j < spec_md_files_list(es).len() implies path_is_markdown(
            #[trigger] spec_md_files_list(es)[j],
        ) by {
            assert(spec_md_files_list(es) == head + tail);
            if j < head.len() {
                assert(spec_md_files_list(es)[j] == head[j]);
            } else {
                assert(spec_md_files_list(es)[j] == tail[j - head.len()]);
            }
        }
    }
}

proof fn lemma_md_files_entry_all_markdown(e: FsEntry)
    ensures
        forall|j: int|
            0 <= j < spec_md_files_entry(e).len() ==> path_is_markdown(
                #[trigger] spec_md_files_entry(e)[j],
            ),
    decreases e,
{
    match e {
        FsEntry::File(p) => {
            if path_is_markdown(p@) {
                assert(spec_md_files_entry(e) == seq![p@]);
                assert(spec_md_files_entry(e)[0] == p@);
            }
        },
        FsEntry::Dir(d) => {
            lemma_md_files_all_markdown(d.entries@);
            assert(spec_md_files_entry(e) == spec_md_files_list(d.entries@));
        },
    }
}

fn flatten_dir(dir: &CrawledDir) -> (r: Vec<CrawledFile>)
    ensures
        files_view(r@) == spec_flatten_list(dir.entries@),
    decreases *dir,
{
    let mut out: Vec<CrawledFile> = Vec::new();
    let n = dir.entries.len();
    proof {
        assert(files_view(out@) =~~= Seq::<Seq<Seq<char>>>::empty());
        assert(dir.entries@.skip(0) =~~= dir.entries@);
    }
    for i in 0..n
        invariant
            n == dir.entries@.len(),
            spec_flatten_list(dir.entries@) == files_view(out@) + spec_flatten_list(
                dir.entries@.skip(i as int),
            ),
    {
        let ghost bview = files_view(out@);
        let ghost rest = dir.entries@.skip(i as int);
        proof {
            assert(rest[0] == dir.entries@[i as int]);
            assert(rest.skip(1) =~~= dir.entries@.skip(i + 1));
        }
        match &dir.entries[i] {
            CrawledEntry::File(f) => {
                out.push(CrawledFile { path: f.path.copy_path() });
                proof {
                    assert(files_view(out@) =~~= bview.push(f.path@));
                    assert(bview.push(f.path@) =~~= bview + spec_flatten_entry(
                        dir.entries@[i as int],
                    ));
                    assert((bview + spec_flatten_entry(dir.entries@[i as int]))
                        + spec_flatten_list(dir.entries@.skip(i + 1)) =~~= bview
                        + (spec_flatten_entry(dir.entries@[i as int]) + spec_flatten_list(
                        dir.entries@.skip(i + 1),
                    )));
                }
            },
            CrawledEntry::Dir(d) => {
                let mut sub = flatten_dir(d);
                let ghost subview = files_view(sub@);
                out.append(&mut sub);
                proof {
                    assert(files_view(out@) =~~= bview + subview);
                    assert((bview + subview) + spec_flatten_list(dir.entries@.skip(i + 1)) =~~=
                        bview + (subview + spec_flatten_list(dir.entries@.skip(i + 1))));
                }
            },
        }
    }
    proof {
        assert(dir.entries@.skip(n as int) =~~= Seq::<CrawledEntry>::empty());
        assert(files_view(out@) + Seq::<Seq<Seq<char>>>::empty() =~~= files_view(out@));
    }
    out
}

/// Flattens a crawled tree into the ordered list of its files.
pub fn flatten(dir: CrawledDir) -> (r: Vec<CrawledFile>)
    ensures
        files_view(r@) == spec_flatten_list(dir.entries@),
{
    flatten_dir(&dir)
}

/// Selects the markdown files of a raw directory listing, keeping the tree
/// shape: the pure part of a crawl, applied after the caller has walked the
/// filesystem.
pub fn select_markdown(dir: &FsDir) -> (r: CrawledDir)
    ensures
        spec_flatten_list(r.entries@) == spec_md_files_list(dir.entries@),
    decreases *dir,
{
    let mut entries: Vec<CrawledEntry> = Vec::new();
    let n = dir.entries.len();
    proof {
        assert(spec_flatten_list(entries@) =~~= Seq::<Seq<Seq<char>>>::empty());
        assert(dir.entries@.skip(0) =~~= dir.entries@);
    }
    for i in 0..n
        invariant
            n == dir.entries@.len(),
            spec_md_files_list(dir.entries@) == spec_flatten_list(entries@) + spec_md_files_list(
                dir.entries@.skip(i as int),
            ),
    {
        let ghost bflat = spec_flatten_list(entries@);
        let ghost rest = dir.entries@.skip(i as int);
        proof {
            assert(rest[0] == dir.entries@[i as int]);
            assert(rest.skip(1) =~~= dir.entries@.skip(i + 1));
        }
        match &dir.entries[i] {
            FsEntry::File(p) => {
                if p.is_markdown() {
                    let e = CrawledEntry::File(CrawledFile { path: p.copy_path() });
                    proof {
                        lemma_flatten_push(entries@, e);
                    }
                    entries.push(e);
                    proof {
                        assert(bflat + spec_md_files_entry(dir.entries@[i as int]) =~~=
                            spec_flatten_list(entries@));
                        assert((bflat + spec_md_files_entry(dir.entries@[i as int]))
                            + spec_md_files_list(dir.entries@.skip(i + 1)) =~~= bflat + (
                        spec_md_files_entry(dir.entries@[i as int]) + spec_md_files_list(
                            dir.entries@.skip(i + 1),
                        )));
                    }
                } else {
                    proof {
                        assert(spec_md_files_entry(dir.entries@[i as int]) =~~= Seq::<
                            Seq<Seq<char>>,
                        >::empty());
                        assert(bflat + (spec_md_files_entry(dir.entries@[i as int])
                            + spec_md_files_list(dir.entries@.skip(i + 1))) =~~= bflat
                            + spec_md_files_list(dir.entries@.skip(i + 1)));
                    }
                }
            },
            FsEntry::Dir(d) => {
                let sub = select_markdown(d);
                let e = CrawledEntry::Dir(sub);
                proof {
                    lemma_flatten_push(entries@, e);
                }
                entries.push(e);
                proof {
                    assert(bflat + spec_md_files_entry(dir.entries@[i as int]) =~~=
                        spec_flatten_list(entries@));
                    assert((bflat + spec_md_files_entry(dir.entries@[i as int]))
                        + spec_md_files_list(dir.entries@.skip(i + 1)) =~~= bflat + (
                    spec_md_files_entry(dir.entries@[i as int]) + spec_md_files_list(
                        dir.entries@.skip(i + 1),
                    )));
                }
            },
        }
    }
    proof {
        assert(dir.entries@.skip(n as int) =~~= Seq::<FsEntry>::empty());
        assert(spec_flatten_list(entries@) + Seq::<Seq<Seq<char>>>::empty() =~~= spec_flatten_list(
            entries@,
        ));
    }
    CrawledDir { entries }
}

/// Crawls a raw directory listing: exactly the markdown files anywhere below
/// the root, in preorder, and nothing else.
pub fn crawl(dir: &FsDir) -> (r: Vec<CrawledFile>)
    ensures
        files_view(r@) == spec_md_files_list(dir.entries@),
{
    flatten(select_markdown(dir))
}

} // verus!
