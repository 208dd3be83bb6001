use vstd::prelude::*;

verus! {

/// A canonical filesystem path, modelled as its ordered list of components.
/// The library never touches the filesystem itself: callers hand it paths in
/// this form (already canonicalized) and receive output locations back in the
/// same form.
pub struct SitePath {
    pub parts: Vec<String>,
}

impl View for SitePath {
    type V = Seq<Seq<char>>;

    open spec fn view(&self) -> Seq<Seq<char>> {
        self.parts.deep_view()
    }
}

/// The component lists of a sequence of paths.
pub open spec fn paths_view(s: Seq<SitePath>) -> Seq<Seq<Seq<char>>> {
    s.map_values(|p: SitePath| p@)
}

pub open spec fn md_ext() -> Seq<char> {
    seq!['m', 'd']
}

pub open spec fn html_ext() -> Seq<char> {
    seq!['h', 't', 'm', 'l']
}

/// Position of the dot that starts `name`'s extension: the last '.' of the
/// component, except that a dot in the leading position (a hidden file)
/// starts no extension.
pub open spec fn ext_dot_pos(name: Seq<char>) -> Option<int>
    decreases name.len(),
{
    if name.len() <= 1 {
        None
    } else if name[name.len() - 1] == '.' {
        Some(name.len() - 1)
    } else {
        ext_dot_pos(name.take(name.len() - 1))
    }
}

/// The extension of one path component, after the final dot, if any.
pub open spec fn name_extension(name: Seq<char>) -> Option<Seq<char>> {
    match ext_dot_pos(name) {
        Some(i) => Some(name.skip(i + 1)),
        None => None,
    }
}

/// The component with its extension replaced by `ext` (or appended when it
/// had none).
pub open spec fn name_with_extension(name: Seq<char>, ext: Seq<char>) -> Seq<char> {
    match ext_dot_pos(name) {
        Some(i) => name.take(i) + seq!['.'] + ext,
        None => name + seq!['.'] + ext,
    }
}

/// Whether the path names a markdown source document.
pub open spec fn path_is_markdown(p: Seq<Seq<char>>) -> bool {
    p.len() > 0 && name_extension(p.last()) == Some(md_ext())
}

/// The path with its final component's extension replaced by `html`.
pub open spec fn path_with_html(p: Seq<Seq<char>>) -> Seq<Seq<char>> {
    if p.len() == 0 {
        p
    } else {
        p.take(p.len() - 1).push(name_with_extension(p.last(), html_ext()))
    }
}

/// The path without its final component (itself, when it has none).
pub open spec fn path_parent(p: Seq<Seq<char>>) -> Seq<Seq<char>> {
    if p.len() == 0 {
        p
    } else {
        p.take(p.len() - 1)
    }
}

/// The path without its first `n` components (empty when it has fewer).
pub open spec fn path_skip(p: Seq<Seq<char>>, n: int) -> Seq<Seq<char>> {
    if n >= p.len() {
        Seq::empty()
    } else {
        p.skip(n)
    }
}

pub proof fn lemma_ext_dot_pos_bounds(name: Seq<char>)
    ensures
        ext_dot_pos(name) matches Some(i) ==> 1 <= i < name.len() && name[i] == '.',
    decreases name.len(),
{
    if name.len() <= 1 {
    } else if name[name.len() - 1] == '.' {
    } else {
        lemma_ext_dot_pos_bounds(name.take(name.len() - 1));
    }
}

impl SitePath {
    pub fn new() -> (r: SitePath)
        ensures
            r@ == Seq::<Seq<char>>::empty(),
    {
        let parts: Vec<String> = Vec::new();
        proof {
            assert(parts.deep_view() =~= Seq::<Seq<char>>::empty());
        }
        SitePath { parts }
    }

    pub fn count(&self) -> (r: usize)
        ensures
            r == self@.len(),
    {
        self.parts.len()
    }

    /// Structural equality of two paths, component by component.
    pub fn equals(&self, other: &SitePath) -> (r: bool)
        ensures
            r == (self@ == other@),
    {
        if self.parts.len() != other.parts.len() {
            proof {
                assert(self@.len() == self.parts@.len());
                assert(other@.len() == other.parts@.len());
            }
            return false;
        }
        let n = self.parts.len();
        for i in 0..n
            invariant
                n == self.parts.len() == other.parts.len(),
                forall|j: int| 0 <= j < i ==> self@[j] == other@[j],
        {
            if !(self.parts[i] == other.parts[i]) {
                proof {
                    assert(self@[i as int] == self.parts@[i as int]@);
                    assert(other@[i as int] == other.parts@[i as int]@);
                    assert(self@[i as int] != other@[i as int]);
                }
                return false;
            }
        }
        proof {
            assert(self@ =~~= other@);
        }
        true
    }

    /// A fresh path with the same components.
    pub fn copy_path(&self) -> (r: SitePath)
        ensures
            r@ == self@,
    {
        let parts = self.parts.clone();
        proof {
            assert(parts.deep_view() =~= self.parts.deep_view());
        }
        SitePath { parts }
    }

    /// The path extended with one further component.
    pub fn child(&self, name: &str) -> (r: SitePath)
        ensures
            r@ == self@.push(name@),
    {
        let mut parts = self.parts.clone();
        proof {
            assert(parts.deep_view() =~= self.parts.deep_view());
        }
        parts.push(name.to_owned());
        proof {
            assert(parts.deep_view() =~= self@.push(name@));
        }
        SitePath { parts }
    }

    /// The concatenation of two paths; the right-hand side is taken to be
    /// relative.
    pub fn join(&self, other: &SitePath) -> (r: SitePath)
        ensures
            r@ == self@ + other@,
    {
        let mut parts = self.parts.clone();
        proof {
            assert(parts.deep_view() =~~= self.parts.deep_view());
            assert(self@ + other@.take(0) =~~= self@);
        }
        let n = other.parts.len();
        for i in 0..n
            invariant
                n == other.parts.len(),
                parts.deep_view() == self@ + other@.take(i as int),
        {
            let ghost bdeep = parts.deep_view();
            let x = other.parts[i].clone();
            parts.push(x);
            proof {
                assert(parts.deep_view() =~~= bdeep.push(other@[i as int]));
                assert((self@ + other@.take(i as int)).push(other@[i as int]) =~~= self@
                    + other@.take(i + 1));
            }
        }
        proof {
            assert(self@ + other@.take(n as int) =~~= self@ + other@);
        }
        SitePath { parts }
    }

    /// The path without its first `n` components.
    pub fn skip_components(&self, n: usize) -> (r: SitePath)
        ensures
            r@ == path_skip(self@, n as int),
    {
        let mut parts: Vec<String> = Vec::new();
        let len = self.parts.len();
        proof {
            assert(parts.deep_view() =~~= Seq::<Seq<char>>::empty());
        }
        if n >= len {
            return SitePath { parts };
        }
        let mut i: usize = n;
        proof {
            assert(parts.deep_view() =~~= self@.subrange(n as int, n as int));
        }
        while i < len
            invariant
                len == self.parts.len(),
                n <= i <= len,
                n < len,
                parts.deep_view() == self@.subrange(n as int, i as int),
            decreases len - i,
        {
            let ghost bdeep = parts.deep_view();
            parts.push(self.parts[i].clone());
            proof {
                assert(parts.deep_view() =~~= bdeep.push(self@[i as int]));
                assert(self@.subrange(n as int, i as int).push(self@[i as int]) =~~= self@.subrange(
                    n as int,
                    i + 1,
                ));
            }
            i += 1;
        }
        proof {
            assert(self@.subrange(n as int, len as int) =~~= path_skip(self@, n as int));
        }
        SitePath { parts }
    }

    /// The path without its final component.
    pub fn parent(&self) -> (r: SitePath)
        ensures
            r@ == path_parent(self@),
    {
        let len = self.parts.len();
        if len == 0 {
            return self.copy_path();
        }
        let mut parts: Vec<String> = Vec::new();
        proof {
            assert(parts.deep_view() =~~= self@.take(0));
        }
        for j in 0..len - 1
            invariant
                len == self.parts.len(),
                len >= 1,
                parts.deep_view() == self@.take(j as int),
        {
            let ghost bdeep = parts.deep_view();
            parts.push(self.parts[j].clone());
            proof {
                assert(parts.deep_view() =~~= bdeep.push(self@[j as int]));
                assert(self@.take(j as int).push(self@[j as int]) =~~= self@.take(j + 1));
            }
        }
        SitePath { parts }
    }

    /// Index of the dot that starts the final component's extension.
    fn ext_dot_index(name: &str) -> (r: Option<usize>)
        ensures
            r matches Some(i) ==> ext_dot_pos(name@) == Some(i as int),
            r is None ==> ext_dot_pos(name@) is None,
    {
        let n = name.unicode_len();
        let mut i: usize = n;
        proof {
            assert(name@.take(n as int) =~= name@);
        }
        while i > 1
            invariant
                i <= n,
                n == name@.len(),
                ext_dot_pos(name@) == ext_dot_pos(name@.take(i as int)),
            decreases i,
        {
            if name.get_char(i - 1) == '.' {
                proof {
                    assert(name@.take(i as int).len() == i);
                    assert(name@.take(i as int)[i - 1] == name@[i - 1]);
                }
                return Some(i - 1);
            }
            proof {
                assert(name@.take(i as int)[i - 1] == name@[i - 1]);
                assert(name@.take(i as int).take(i - 1) =~= name@.take(i - 1));
            }
            i -= 1;
        }
        None
    }

    /// Whether this path names a markdown source document.
    pub fn is_markdown(&self) -> (r: bool)
        ensures
            r == path_is_markdown(self@),
    {
        if self.parts.len() == 0 {
            return false;
        }
        let name: &String = &self.parts[self.parts.len() - 1];
        proof {
            assert(self@.last() == name@);
        }
        match Self::ext_dot_index(name.as_str()) {
            None => false,
            Some(i) => {
                proof {
                    lemma_ext_dot_pos_bounds(name@);
                }
                let nlen = name.as_str().unicode_len();
                if nlen - i - 1 != 2 {
                    proof {
                        assert(name@.skip(i + 1).len() != md_ext().len());
                    }
                    false
                } else {
                    let r = name.as_str().get_char(i + 1) == 'm' && name.as_str().get_char(i + 2)
                        == 'd';
                    proof {
                        if r {
                            assert(name@.skip(i + 1) =~= md_ext());
                        } else {
                            assert(name@.skip(i + 1) != md_ext());
                        }
                    }
                    r
                }
            },
        }
    }

    /// The path with its final component's extension replaced by `html`.
    pub fn with_html_extension(&self) -> (r: SitePath)
        ensures
            r@ == path_with_html(self@),
    {
        let len = self.parts.len();
        if len == 0 {
            return self.copy_path();
        }
        let name: &String = &self.parts[len - 1];
        proof {
            assert(self@.last() == name@);
        }
        let mut newname = String::new();
        match Self::ext_dot_index(name.as_str()) {
            Some(i) => {
                proof {
                    lemma_ext_dot_pos_bounds(name@);
                }
                newname.append(name.as_str().substring_char(0, i));
                newname.append(".html");
                proof {
                    reveal_strlit(".html");
                    assert(".html"@ =~= seq!['.'] + html_ext());
                    assert(newname@ =~= name_with_extension(name@, html_ext()));
                }
            },
            None => {
                newname.append(name.as_str());
                newname.append(".html");
                proof {
                    reveal_strlit(".html");
                    assert(".html"@ =~= seq!['.'] + html_ext());
                    assert(newname@ =~= name_with_extension(name@, html_ext()));
                }
            },
        }
        let mut parts: Vec<String> = Vec::new();
        proof {
            assert(parts.deep_view() =~~= self@.take(0));
        }
        for j in 0..len - 1
            invariant
                len == self.parts.len(),
                len >= 1,
                parts.deep_view() == self@.take(j as int),
        {
            let ghost bdeep = parts.deep_view();
            parts.push(self.parts[j].clone());
            proof {
                assert(parts.deep_view() =~~= bdeep.push(self@[j as int]));
                assert(self@.take(j as int).push(self@[j as int]) =~~= self@.take(j + 1));
            }
        }
        let ghost bdeep = parts.deep_view();
        let ghost nn = newname@;
        parts.push(newname);
        proof {
            assert(parts.deep_view() =~~= bdeep.push(nn));
            assert(self@.take(len - 1).push(nn) =~~= path_with_html(self@));
        }
        SitePath { parts }
    }
}

} // verus!
