use vstd::prelude::*;

verus! {

use crate::cache::{Cache, cache_find, cache_insert, cache_keys, digest_of};
use crate::paths::{SitePath, path_is_markdown, path_skip, path_with_html, paths_view};
use crate::render::{html_of, render_markdown, decode_text, text_of};
use crate::store::{FileStore, store_find, store_text};

/// One compiled page, ready to be written at its output path.
pub struct Page {
    pub path: SitePath,
    pub html: String,
}

impl View for Page {
    type V = (Seq<Seq<char>>, Seq<char>);

    open spec fn view(&self) -> (Seq<Seq<char>>, Seq<char>) {
        (self.path@, self.html@)
    }
}

pub open spec fn pages_view(s: Seq<Page>) -> Seq<(Seq<Seq<char>>, Seq<char>)> {
    s.map_values(|p: Page| p@)
}

/// Why a batch stopped early.
pub enum GenError {
    /// The navigation file was named in the batch but its bytes were
    /// missing or not text.
    NavUnreadable,
    /// A tracked file's staleness was to be checked but its bytes were
    /// missing.
    StaleCheckUnreadable(SitePath),
}

pub ghost enum GenErrorV {
    NavUnreadable,
    StaleCheckUnreadable(Seq<Seq<char>>),
}

impl View for GenError {
    type V = GenErrorV;

    open spec fn view(&self) -> GenErrorV {
        match self {
            GenError::NavUnreadable => GenErrorV::NavUnreadable,
            GenError::StaleCheckUnreadable(p) => GenErrorV::StaleCheckUnreadable(p@),
        }
    }
}

pub open spec fn opt_err_view(o: Option<GenError>) -> Option<GenErrorV> {
    match o {
        Some(e) => Some(e@),
        None => None,
    }
}

/// What one batch produced: the pages to write, in order; the files skipped
/// because their bytes could not be rendered; and why the batch stopped
/// early, if it did.
pub struct GenReport {
    pub pages: Vec<Page>,
    pub skipped: Vec<SitePath>,
    pub error: Option<GenError>,
}

/// The generator's state, as the contracts speak of it.
pub ghost struct GenModel {
    pub src: Seq<Seq<char>>,
    pub name: Seq<char>,
    pub out_root: Seq<Seq<char>>,
    pub cache: Seq<(Seq<Seq<char>>, Seq<char>)>,
    pub nav_path: Seq<Seq<char>>,
    pub nav_html: Seq<char>,
    pub refresh: bool,
}

pub ghost struct GenOutput {
    pub pages: Seq<(Seq<Seq<char>>, Seq<char>)>,
    pub skipped: Seq<Seq<Seq<char>>>,
    pub error: Option<GenErrorV>,
}

pub ghost struct GenStep {
    pub model: GenModel,
    pub out: GenOutput,
}

pub open spec fn empty_out() -> GenOutput {
    GenOutput { pages: Seq::empty(), skipped: Seq::empty(), error: None }
}

pub open spec fn out_cat(a: GenOutput, b: GenOutput) -> GenOutput {
    GenOutput {
        pages: a.pages + b.pages,
        skipped: a.skipped + b.skipped,
        error: if a.error is Some {
            a.error
        } else {
            b.error
        },
    }
}

pub open spec fn out_prepend(o: GenOutput, s: GenStep) -> GenStep {
    GenStep { model: s.model, out: out_cat(o, s.out) }
}

/// The tag a page carries when it asks for live refresh.
pub open spec fn spec_refresh_tag(refresh: bool) -> Seq<char> {
    if refresh {
        "<meta http-equiv='refresh' content='1'>"@
    } else {
        Seq::<char>::empty()
    }
}

/// One whole page: title and optional refresh tag in the head, then the
/// navigation fragment and the rendered document body.
pub open spec fn spec_page(
    title: Seq<char>,
    nav: Seq<char>,
    content: Seq<char>,
    refresh: bool,
) -> Seq<char> {
    "<head><title>"@ + title + "</title>"@ + spec_refresh_tag(refresh) + "</head>"@
        + "<body><main>"@ + "<nav>"@ + nav + "</nav>"@ + "<div id='content'>"@ + content
        + "</div>"@ + "</main></body>"@
}

/// Assembles one page from its title, navigation fragment, document body
/// and refresh flag.
pub fn assemble_page(title: &str, nav: &str, content: &str, refresh: bool) -> (r: String)
    ensures
        r@ == spec_page(title@, nav@, content@, refresh),
{
    let mut page = String::new();
    page.append("<head><title>");
    page.append(title);
    page.append("</title>");
    if refresh {
        page.append("<meta http-equiv='refresh' content='1'>");
    }
    page.append("</head>");
    page.append("<body><main>");
    page.append("<nav>");
    page.append(nav);
    page.append("</nav>");
    page.append("<div id='content'>");
    page.append(content);
    page.append("</div>");
    page.append("</main></body>");
    proof {
        assert(page@ =~= spec_page(title@, nav@, content@, refresh));
    }
    page
}

/// The output location a source file is mirrored to: its path relative to
/// the source root, under the output root, with the `html` extension.
pub open spec fn spec_output_path(m: GenModel, input: Seq<Seq<char>>) -> Seq<Seq<char>> {
    path_with_html(m.out_root + path_skip(input, m.src.len() as int))
}

/// The page one file renders to under the current state, when its bytes are
/// present and are text.
pub open spec fn spec_render_one(
    m: GenModel,
    input: Seq<Seq<char>>,
    ct: Seq<(Seq<Seq<char>>, Option<Seq<u8>>)>,
) -> Option<(Seq<Seq<char>>, Seq<char>)> {
    match store_find(ct, input) {
        None => None,
        Some(b) => match text_of(b) {
            None => None,
            Some(t) => Some(
                (spec_output_path(m, input), spec_page(m.name, m.nav_html, html_of(t), m.refresh)),
            ),
        },
    }
}

/// The effect of rendering one file: its page, or the file recorded as
/// skipped.
pub open spec fn one_out(
    m: GenModel,
    input: Seq<Seq<char>>,
    ct: Seq<(Seq<Seq<char>>, Option<Seq<u8>>)>,
) -> GenOutput {
    match spec_render_one(m, input, ct) {
        Some(pg) => GenOutput { pages: seq![pg], skipped: Seq::empty(), error: None },
        None => GenOutput { pages: Seq::empty(), skipped: seq![input], error: None },
    }
}

/// The state after rendering one file: exactly when its bytes were present
/// and decoded — when a page was produced — the cache records their digest.
/// A failed render records nothing, so every tracked path has been rendered
/// successfully at least once, and a file that could not be rendered stays
/// stale and is attempted again on the next batch that names it.
pub open spec fn model_after_update(
    m: GenModel,
    input: Seq<Seq<char>>,
    ct: Seq<(Seq<Seq<char>>, Option<Seq<u8>>)>,
) -> GenModel {
    match store_find(ct, input) {
        Some(b) => if text_of(b) is Some {
            GenModel { cache: cache_insert(m.cache, input, digest_of(b)), ..m }
        } else {
            m
        },
        None => m,
    }
}

/// A full sweep over the given tracked paths: every markdown one is
/// re-rendered unconditionally and its cache entry refreshed.
pub open spec fn spec_regen_list(
    m: GenModel,
    files: Seq<Seq<Seq<char>>>,
    ct: Seq<(Seq<Seq<char>>, Option<Seq<u8>>)>,
) -> GenStep
    decreases files.len(),
{
    if files.len() == 0 {
        GenStep { model: m, out: empty_out() }
    } else if path_is_markdown(files[0]) {
        out_prepend(
            one_out(m, files[0], ct),
            spec_regen_list(model_after_update(m, files[0], ct), files.skip(1), ct),
        )
    } else {
        spec_regen_list(m, files.skip(1), ct)
    }
}

/// One batch of candidate paths, processed in order. A candidate equal to
/// the navigation path re-renders the navigation fragment, sweeps every
/// tracked path, and ends the batch; a markdown candidate is rendered
/// exactly when it is stale; anything else is passed over.
pub open spec fn spec_generate(
    m: GenModel,
    cs: Seq<Seq<Seq<char>>>,
    ct: Seq<(Seq<Seq<char>>, Option<Seq<u8>>)>,
) -> GenStep
    decreases cs.len(),
{
    if cs.len() == 0 {
        GenStep { model: m, out: empty_out() }
    } else {
        let c = cs[0];
        if c == m.nav_path {
            match store_text(ct, c) {
                None => GenStep {
                    model: m,
                    out: GenOutput {
                        pages: Seq::empty(),
                        skipped: Seq::empty(),
                        error: Some(GenErrorV::NavUnreadable),
                    },
                },
                Some(text) => spec_regen_list(
                    GenModel { nav_html: html_of(text), ..m },
                    cache_keys(m.cache),
                    ct,
                ),
            }
        } else if path_is_markdown(c) {
            match cache_find(m.cache, c) {
                Some(stored) => match store_find(ct, c) {
                    None => GenStep {
                        model: m,
                        out: GenOutput {
                            pages: Seq::empty(),
                            skipped: Seq::empty(),
                            error: Some(GenErrorV::StaleCheckUnreadable(c)),
                        },
                    },
                    Some(bytes) => if stored != digest_of(bytes) {
                        out_prepend(
                            one_out(m, c, ct),
                            spec_generate(model_after_update(m, c, ct), cs.skip(1), ct),
                        )
                    } else {
                        spec_generate(m, cs.skip(1), ct)
                    },
                },
                None => out_prepend(
                    one_out(m, c, ct),
                    spec_generate(model_after_update(m, c, ct), cs.skip(1), ct),
                ),
            }
        } else {
            spec_generate(m, cs.skip(1), ct)
        }
    }
}

/// A sweep reports only pages and skipped files, never an early stop.
pub proof fn lemma_regen_no_error(
    m: GenModel,
    files: Seq<Seq<Seq<char>>>,
    ct: Seq<(Seq<Seq<char>>, Option<Seq<u8>>)>,
)
    ensures
        spec_regen_list(m, files, ct).out.error is None,
    decreases files.len(),
{
    if files.len() == 0 {
    } else if path_is_markdown(files[0]) {
        lemma_regen_no_error(model_after_update(m, files[0], ct), files.skip(1), ct);
    } else {
        lemma_regen_no_error(m, files.skip(1), ct);
    }
}

/// A batch stops at the navigation file: once a candidate equals the
/// navigation path, the candidates after it in the same batch are never
/// examined, so processing the whole batch equals processing it only up to
/// and including the navigation candidate.
pub proof fn lemma_nav_short_circuit(
    m: GenModel,
    cs: Seq<Seq<Seq<char>>>,
    ct: Seq<(Seq<Seq<char>>, Option<Seq<u8>>)>,
    i: int,
)
    requires
        0 <= i < cs.len(),
        cs[i] == m.nav_path,
        forall|j: int| 0 <= j < i ==> cs[j] != m.nav_path,
    ensures
        spec_generate(m, cs, ct) == spec_generate(m, cs.take(i + 1), ct),
    decreases i,
{
    let pre = cs.take(i + 1);
    assert(pre.len() == i + 1);
    assert(pre[0] == cs[0]);
    if i == 0 {
        assert(cs[0] == m.nav_path);
    } else {
        let c = cs[0];
        assert(c != m.nav_path);
        assert(pre.skip(1) =~~= cs.skip(1).take(i));
        assert(cs.skip(1)[i - 1] == cs[i]);
        assert(forall|j: int| 0 <= j < i - 1 ==> cs.skip(1)[j] == cs[j + 1]);
        if path_is_markdown(c) {
            match cache_find(m.cache, c) {
                Some(stored) => {
                    match store_find(ct, c) {
                        None => {
                        },
                        Some(bytes) => {
                            if stored != digest_of(bytes) {
                                let m1 = model_after_update(m, c, ct);
                                assert(m1.nav_path == m.nav_path);
                                lemma_nav_short_circuit(m1, cs.skip(1), ct, i - 1);
                                assert(cs.skip(1).take(i) == pre.skip(1));
                            } else {
                                lemma_nav_short_circuit(m, cs.skip(1), ct, i - 1);
                                assert(cs.skip(1).take(i) == pre.skip(1));
                            }
                        },
                    }
                },
                None => {
                    let m1 = model_after_update(m, c, ct);
                    assert(m1.nav_path == m.nav_path);
                    lemma_nav_short_circuit(m1, cs.skip(1), ct, i - 1);
                    assert(cs.skip(1).take(i) == pre.skip(1));
                },
            }
        } else {
            lemma_nav_short_circuit(m, cs.skip(1), ct, i - 1);
            assert(cs.skip(1).take(i) == pre.skip(1));
        }
    }
}

/// A markdown file whose decodable bytes are unchanged between two batches
/// is not re-rendered by the second: after a batch that named it, a batch
/// naming it again over the same bytes produces nothing and changes
/// nothing. (A file whose bytes do not decode is never recorded, so it
/// stays stale and is attempted again instead.)
pub proof fn lemma_unchanged_not_regenerated(
    m: GenModel,
    f: Seq<Seq<char>>,
    ct: Seq<(Seq<Seq<char>>, Option<Seq<u8>>)>,
)
    requires
        f != m.nav_path,
        path_is_markdown(f),
        store_text(ct, f) is Some,
    ensures
        ({
            let m1 = spec_generate(m, seq![f], ct).model;
            spec_generate(m1, seq![f], ct) == (GenStep { model: m1, out: empty_out() })
        }),
{
    reveal_with_fuel(spec_generate, 3);
    assert(store_find(ct, f) is Some);
    let b = store_find(ct, f).unwrap();
    assert(text_of(b) is Some);
    let s = seq![f];
    assert(s[0] == f);
    assert(s.skip(1) =~~= Seq::<Seq<Seq<char>>>::empty());
    assert(s.skip(1).len() == 0);
    let m1 = spec_generate(m, s, ct).model;
    match cache_find(m.cache, f) {
        Some(stored) => {
            if stored != digest_of(b) {
                assert(m1 == model_after_update(m, f, ct));
                crate::cache::lemma_find_after_insert(m.cache, f, digest_of(b));
                assert(cache_find(m1.cache, f) == Some(digest_of(b)));
            } else {
                assert(m1 == m);
            }
        },
        None => {
            assert(m1 == model_after_update(m, f, ct));
            crate::cache::lemma_find_after_insert(m.cache, f, digest_of(b));
            assert(cache_find(m1.cache, f) == Some(digest_of(b)));
        },
    }
    assert(m1.nav_path == m.nav_path);
    assert(spec_generate(m1, s, ct) == (GenStep { model: m1, out: empty_out() }));
}

proof fn lemma_update_keeps_tracked(
    m: GenModel,
    input: Seq<Seq<char>>,
    ct: Seq<(Seq<Seq<char>>, Option<Seq<u8>>)>,
    q: Seq<Seq<char>>,
)
    requires
        cache_find(m.cache, q) is Some,
    ensures
        cache_find(model_after_update(m, input, ct).cache, q) is Some,
{
    match store_find(ct, input) {
        Some(b) => {
            if text_of(b) is Some {
                if q == input {
                    crate::cache::lemma_find_after_insert(m.cache, input, digest_of(b));
                } else {
                    crate::cache::lemma_find_after_insert_other(m.cache, input, digest_of(b), q);
                }
            }
        },
        None => {},
    }
}

proof fn lemma_regen_keeps_tracked(
    m: GenModel,
    files: Seq<Seq<Seq<char>>>,
    ct: Seq<(Seq<Seq<char>>, Option<Seq<u8>>)>,
    q: Seq<Seq<char>>,
)
    requires
        cache_find(m.cache, q) is Some,
    ensures
        cache_find(spec_regen_list(m, files, ct).model.cache, q) is Some,
    decreases files.len(),
{
    if files.len() == 0 {
    } else if path_is_markdown(files[0]) {
        lemma_update_keeps_tracked(m, files[0], ct, q);
        lemma_regen_keeps_tracked(model_after_update(m, files[0], ct), files.skip(1), ct, q);
    } else {
        lemma_regen_keeps_tracked(m, files.skip(1), ct, q);
    }
}

/// A batch never evicts: a cache entry is created on a file's first
/// successful render and overwritten on later ones, never deleted, so
/// every path tracked before a batch is still tracked after it.
pub proof fn lemma_generate_never_evicts(
    m: GenModel,
    cs: Seq<Seq<Seq<char>>>,
    ct: Seq<(Seq<Seq<char>>, Option<Seq<u8>>)>,
    q: Seq<Seq<char>>,
)
    requires
        cache_find(m.cache, q) is Some,
    ensures
        cache_find(spec_generate(m, cs, ct).model.cache, q) is Some,
    decreases cs.len(),
{
    if cs.len() == 0 {
    } else {
        let c = cs[0];
        if c == m.nav_path {
            match store_text(ct, c) {
                None => {},
                Some(text) => {
                    lemma_regen_keeps_tracked(
                        GenModel { nav_html: html_of(text), ..m },
                        cache_keys(m.cache),
                        ct,
                        q,
                    );
                },
            }
        } else if path_is_markdown(c) {
            match cache_find(m.cache, c) {
                Some(stored) => {
                    match store_find(ct, c) {
                        None => {},
                        Some(bytes) => {
                            if stored != digest_of(bytes) {
                                lemma_update_keeps_tracked(m, c, ct, q);
                                lemma_generate_never_evicts(
                                    model_after_update(m, c, ct),
                                    cs.skip(1),
                                    ct,
                                    q,
                                );
                            } else {
                                lemma_generate_never_evicts(m, cs.skip(1), ct, q);
                            }
                        },
                    }
                },
                None => {
                    lemma_update_keeps_tracked(m, c, ct, q);
                    lemma_generate_never_evicts(model_after_update(m, c, ct), cs.skip(1), ct, q);
                },
            }
        } else {
            lemma_generate_never_evicts(m, cs.skip(1), ct, q);
        }
    }
}

/// Owns the cache and the rendered navigation fragment; decides, for each
/// batch of changed paths, what is re-rendered and what the cache records.
pub struct Generator {
    src: SitePath,
    cache: Cache,
    name: String,
    nav_file_path: SitePath,
    nav_html: String,
    refresh: bool,
}

impl Generator {
    pub closed spec fn model(&self) -> GenModel {
        GenModel {
            src: self.src@,
            name: self.name@,
            out_root: self.cache.out_root(),
            cache: self.cache.entries(),
            nav_path: self.nav_file_path@,
            nav_html: self.nav_html@,
            refresh: self.refresh,
        }
    }

    /// Builds a generator over `src`, with its output root under
    /// `cache_path` named by the project, and the navigation fragment
    /// rendered once from the navigation file's text.
    pub fn new(src: SitePath, cache_path: SitePath, name: String, refresh: bool, nav_source: &str)
        -> (r: Generator)
        ensures
            r.model() == (GenModel {
                src: src@,
                name: name@,
                out_root: cache_path@.push(name@),
                cache: Seq::empty(),
                nav_path: src@.push("index.nav"@),
                nav_html: html_of(nav_source@),
                refresh,
            }),
    {
        let cache = Cache::new(cache_path.child(name.as_str()));
        let nav_file_path = src.child("index.nav");
        let nav_html = render_markdown(nav_source);
        Generator { src, cache, name, nav_file_path, nav_html, refresh }
    }

    /// The paths the cache tracks, in insertion order: the caller reads
    /// their current bytes before handing a batch in.
    pub fn cached_files(&self) -> (r: Vec<SitePath>)
        ensures
            paths_view(r@) == cache_keys(self.model().cache),
    {
        self.cache.files()
    }

    /// The output root that pages are written under.
    pub fn output_root(&self) -> (r: SitePath)
        ensures
            r@ == self.model().out_root,
    {
        self.cache.get_path()
    }

    /// Renders one file's bytes into the compiled page at the given output
    /// location (with its extension made `html`); `None` when the bytes are
    /// missing or not text, which the caller records as a skipped file.
    pub fn generate_file(&self, output_path: SitePath, content: Option<&Vec<u8>>) -> (r: Option<
        Page,
    >)
        ensures
            ({
                let decoded = match content {
                    Some(b) => text_of(b@),
                    None => None,
                };
                match decoded {
                    Some(t) => r matches Some(pg) && pg.path@ == path_with_html(output_path@)
                        && pg.html@ == spec_page(
                        self.model().name,
                        self.model().nav_html,
                        html_of(t),
                        self.model().refresh,
                    ),
                    None => r is None,
                }
            }),
    {
        let out = output_path.with_html_extension();
        match content {
            None => None,
            Some(bytes) => match decode_text(bytes) {
                None => None,
                Some(text) => {
                    let html = render_markdown(text.as_str());
                    let page_html = assemble_page(
                        self.name.as_str(),
                        self.nav_html.as_str(),
                        html.as_str(),
                        self.refresh,
                    );
                    Some(Page { path: out, html: page_html })
                },
            },
        }
    }

    /// Re-renders every tracked markdown file unconditionally and refreshes
    /// its cache entry: the sweep a navigation change triggers.
    pub fn regenerate(&mut self, contents: &FileStore) -> (r: GenReport)
        ensures
            ({
                let step = spec_regen_list(
                    old(self).model(),
                    cache_keys(old(self).model().cache),
                    contents@,
                );
                &&& final(self).model() == step.model
                &&& pages_view(r.pages@) == step.out.pages
                &&& paths_view(r.skipped@) == step.out.skipped
                &&& r.error is None
            }),
    {
        let files = self.cache.files();
        let mut pages: Vec<Page> = Vec::new();
        let mut skipped: Vec<SitePath> = Vec::new();
        let ghost m0 = self.model();
        let ghost ctv = contents@;
        let ghost keys = cache_keys(m0.cache);
        let ghost total = spec_regen_list(m0, keys, ctv);
        let n = files.len();
        proof {
            assert(keys.skip(0) =~~= keys);
            assert(pages_view(pages@) =~~= Seq::<(Seq<Seq<char>>, Seq<char>)>::empty());
            assert(paths_view(skipped@) =~~= Seq::<Seq<Seq<char>>>::empty());
            assert(Seq::<(Seq<Seq<char>>, Seq<char>)>::empty() + spec_regen_list(
                m0,
                keys,
                ctv,
            ).out.pages =~~= spec_regen_list(m0, keys, ctv).out.pages);
            assert(Seq::<Seq<Seq<char>>>::empty() + spec_regen_list(m0, keys, ctv).out.skipped
                =~~= spec_regen_list(m0, keys, ctv).out.skipped);
        }
        let src_len = self.src.count();
        let mut i: usize = 0;
        while i < n
            invariant
                i <= n,
                n == files@.len(),
                paths_view(files@) == keys,
                src_len == self.model().src.len(),
                ctv == contents@,
                total == spec_regen_list(m0, keys, ctv),
                total.model == spec_regen_list(self.model(), keys.skip(i as int), ctv).model,
                total.out.pages == pages_view(pages@) + spec_regen_list(
                    self.model(),
                    keys.skip(i as int),
                    ctv,
                ).out.pages,
                total.out.skipped == paths_view(skipped@) + spec_regen_list(
                    self.model(),
                    keys.skip(i as int),
                    ctv,
                ).out.skipped,
            decreases n - i,
        {
            let ghost mcur = self.model();
            let ghost rest = keys.skip(i as int);
            proof {
                assert(rest[0] == keys[i as int]);
                assert(keys[i as int] == files@[i as int]@);
                assert(rest.skip(1) =~~= keys.skip(i + 1));
            }
            let f = &files[i];
            if f.is_markdown() {
                let rel = f.skip_components(src_len);
                let outp = self.cache.get_path().join(&rel);
                let found = contents.find(f);
                let page_opt = self.generate_file(outp, found);
                let ghost head = one_out(mcur, rest[0], ctv);
                let ghost bpages = pages_view(pages@);
                let ghost bskipped = paths_view(skipped@);
                proof {
                    assert(outp@ == mcur.out_root + path_skip(f@, mcur.src.len() as int));
                }
                match page_opt {
                    Some(pg) => {
                        let ghost pgv = pg@;
                        pages.push(pg);
                        proof {
                            assert(pages_view(pages@) =~~= bpages.push(pgv));
                            assert(head.pages =~~= seq![pgv]);
                            assert(head.skipped =~~= Seq::<Seq<Seq<char>>>::empty());
                        }
                        match contents.find(f) {
                            Some(b) => {
                                self.cache.update(f, b);
                            },
                            None => {},
                        }
                    },
                    None => {
                        skipped.push(f.copy_path());
                        proof {
                            assert(paths_view(skipped@) =~~= bskipped.push(f@));
                            assert(head.skipped =~~= seq![f@]);
                            assert(head.pages =~~= Seq::<(Seq<Seq<char>>, Seq<char>)>::empty());
                        }
                    },
                }
                proof {
                    assert(self.model() == model_after_update(mcur, rest[0], ctv));
                    assert(spec_regen_list(mcur, rest, ctv) == out_prepend(
                        head,
                        spec_regen_list(self.model(), keys.skip(i + 1), ctv),
                    ));
                    let tail = spec_regen_list(self.model(), keys.skip(i + 1), ctv);
                    assert(pages_view(pages@) + tail.out.pages =~~= bpages + (head.pages
                        + tail.out.pages));
                    assert(paths_view(skipped@) + tail.out.skipped =~~= bskipped + (head.skipped
                        + tail.out.skipped));
                }
            } else {
                proof {
                    assert(spec_regen_list(mcur, rest, ctv) == spec_regen_list(
                        mcur,
                        keys.skip(i + 1),
                        ctv,
                    ));
                }
            }
            i += 1;
        }
        proof {
            assert(keys.skip(n as int) =~~= Seq::<Seq<Seq<char>>>::empty());
            assert(pages_view(pages@) + Seq::<(Seq<Seq<char>>, Seq<char>)>::empty() =~~=
                pages_view(pages@));
            assert(paths_view(skipped@) + Seq::<Seq<Seq<char>>>::empty() =~~= paths_view(
                skipped@,
            ));
        }
        GenReport { pages, skipped, error: None }
    }

    /// Processes one batch of candidate paths in order. The navigation file
    /// replaces the fragment and triggers a full sweep, ending the batch; a
    /// stale markdown candidate is rendered and recorded; everything else
    /// is passed over.
    pub fn generate(&mut self, candidates: &Vec<SitePath>, contents: &FileStore) -> (r: GenReport)
        ensures
            ({
                let step = spec_generate(
                    old(self).model(),
                    paths_view(candidates@),
                    contents@,
                );
                &&& final(self).model() == step.model
                &&& pages_view(r.pages@) == step.out.pages
                &&& paths_view(r.skipped@) == step.out.skipped
                &&& opt_err_view(r.error) == step.out.error
            }),
    {
        let mut pages: Vec<Page> = Vec::new();
        let mut skipped: Vec<SitePath> = Vec::new();
        let ghost m0 = self.model();
        let ghost ctv = contents@;
        let ghost cs = paths_view(candidates@);
        let ghost total = spec_generate(m0, cs, ctv);
        let n = candidates.len();
        proof {
            assert(cs.skip(0) =~~= cs);
            assert(pages_view(pages@) =~~= Seq::<(Seq<Seq<char>>, Seq<char>)>::empty());
            assert(paths_view(skipped@) =~~= Seq::<Seq<Seq<char>>>::empty());
            assert(Seq::<(Seq<Seq<char>>, Seq<char>)>::empty() + total.out.pages =~~=
                total.out.pages);
            assert(Seq::<Seq<Seq<char>>>::empty() + total.out.skipped =~~= total.out.skipped);
        }
        let src_len = self.src.count();
        let mut idx: usize = 0;
        while idx < n
            invariant
                idx <= n,
                n == candidates@.len(),
                cs == paths_view(candidates@),
                src_len == self.model().src.len(),
                ctv == contents@,
                m0 == old(self).model(),
                total == spec_generate(m0, cs, ctv),
                total.model == spec_generate(self.model(), cs.skip(idx as int), ctv).model,
                total.out.pages == pages_view(pages@) + spec_generate(
                    self.model(),
                    cs.skip(idx as int),
                    ctv,
                ).out.pages,
                total.out.skipped == paths_view(skipped@) + spec_generate(
                    self.model(),
                    cs.skip(idx as int),
                    ctv,
                ).out.skipped,
                total.out.error == spec_generate(self.model(), cs.skip(idx as int), ctv).out.error,
            decreases n - idx,
        {
            let ghost mcur = self.model();
            let ghost rest = cs.skip(idx as int);
            proof {
                assert(rest[0] == cs[idx as int]);
                assert(cs[idx as int] == candidates@[idx as int]@);
                assert(rest.skip(1) =~~= cs.skip(idx + 1));
            }
            let c = &candidates[idx];
            if c.equals(&self.nav_file_path) {
                let text_opt: Option<String> = match contents.find(c) {
                    None => None,
                    Some(bytes) => decode_text(bytes),
                };
                match text_opt {
                    None => {
                        proof {
                            assert(store_text(ctv, rest[0]) is None);
                            assert(pages_view(pages@) + Seq::<(Seq<Seq<char>>, Seq<char>)>::empty()
                                =~~= pages_view(pages@));
                            assert(paths_view(skipped@) + Seq::<Seq<Seq<char>>>::empty() =~~=
                                paths_view(skipped@));
                        }
                        return GenReport { pages, skipped, error: Some(GenError::NavUnreadable) };
                    },
                    Some(text) => {
                        self.nav_html = render_markdown(text.as_str());
                        proof {
                            assert(store_text(ctv, rest[0]) == Some(text@));
                            assert(self.model() == (GenModel { nav_html: html_of(text@), ..mcur }));
                            assert(self.model().cache == mcur.cache);
                        }
                        let mut rep = self.regenerate(contents);
                        let ghost bpages = pages_view(pages@);
                        let ghost bskipped = paths_view(skipped@);
                        let ghost rpages = pages_view(rep.pages@);
                        let ghost rskipped = paths_view(rep.skipped@);
                        pages.append(&mut rep.pages);
                        skipped.append(&mut rep.skipped);
                        proof {
                            lemma_regen_no_error(
                                GenModel { nav_html: html_of(text@), ..mcur },
                                cache_keys(mcur.cache),
                                ctv,
                            );
                            assert(pages_view(pages@) =~~= bpages + rpages);
                            assert(paths_view(skipped@) =~~= bskipped + rskipped);
                        }
                        return GenReport { pages, skipped, error: None };
                    },
                }
            } else if c.is_markdown() {
                let mut render_it = false;
                let in_cache = match self.cache.lookup(c) {
                    Some(_) => true,
                    None => false,
                };
                if !in_cache {
                    render_it = true;
                } else {
                    match contents.find(c) {
                        None => {
                            proof {
                                assert(pages_view(pages@) + Seq::<
                                    (Seq<Seq<char>>, Seq<char>),
                                >::empty() =~~= pages_view(pages@));
                                assert(paths_view(skipped@) + Seq::<Seq<Seq<char>>>::empty() =~~=
                                    paths_view(skipped@));
                            }
                            return GenReport {
                                pages,
                                skipped,
                                error: Some(GenError::StaleCheckUnreadable(c.copy_path())),
                            };
                        },
                        Some(bytes) => {
                            if self.cache.modified(c, bytes) {
                                render_it = true;
                            }
                        },
                    }
                }
                if render_it {
                    let rel = c.skip_components(src_len);
                    let outp = self.cache.get_path().join(&rel);
                    let found = contents.find(c);
                    let page_opt = self.generate_file(outp, found);
                    let ghost head = one_out(mcur, rest[0], ctv);
                    let ghost bpages = pages_view(pages@);
                    let ghost bskipped = paths_view(skipped@);
                    proof {
                        assert(outp@ == mcur.out_root + path_skip(c@, mcur.src.len() as int));
                    }
                    match page_opt {
                        Some(pg) => {
                            let ghost pgv = pg@;
                            pages.push(pg);
                            proof {
                                assert(pages_view(pages@) =~~= bpages.push(pgv));
                                assert(head.pages =~~= seq![pgv]);
                                assert(head.skipped =~~= Seq::<Seq<Seq<char>>>::empty());
                            }
                            match contents.find(c) {
                                Some(b) => {
                                    self.cache.update(c, b);
                                },
                                None => {},
                            }
                        },
                        None => {
                            skipped.push(c.copy_path());
                            proof {
                                assert(paths_view(skipped@) =~~= bskipped.push(c@));
                                assert(head.skipped =~~= seq![c@]);
                                assert(head.pages =~~= Seq::<(Seq<Seq<char>>, Seq<char>)>::empty());
                            }
                        },
                    }
                    proof {
                        assert(self.model() == model_after_update(mcur, rest[0], ctv));
                        assert(spec_generate(mcur, rest, ctv) == out_prepend(
                            head,
                            spec_generate(self.model(), cs.skip(idx + 1), ctv),
                        ));
                        let tail = spec_generate(self.model(), cs.skip(idx + 1), ctv);
                        assert(pages_view(pages@) + tail.out.pages =~~= bpages + (head.pages
                            + tail.out.pages));
                        assert(paths_view(skipped@) + tail.out.skipped =~~= bskipped + (
                        head.skipped + tail.out.skipped));
                    }
                } else {
                    proof {
                        assert(spec_generate(mcur, rest, ctv) == spec_generate(
                            mcur,
                            cs.skip(idx + 1),
                            ctv,
                        ));
                    }
                }
            } else {
                proof {
                    assert(spec_generate(mcur, rest, ctv) == spec_generate(
                        mcur,
                        cs.skip(idx + 1),
                        ctv,
                    ));
                }
            }
            idx += 1;
        }
        proof {
            assert(cs.skip(n as int) =~~= Seq::<Seq<Seq<char>>>::empty());
            assert(pages_view(pages@) + Seq::<(Seq<Seq<char>>, Seq<char>)>::empty() =~~=
                pages_view(pages@));
            assert(paths_view(skipped@) + Seq::<Seq<Seq<char>>>::empty() =~~= paths_view(
                skipped@,
            ));
        }
        GenReport { pages, skipped, error: None }
    }
}

} // verus!
