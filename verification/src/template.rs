use vstd::prelude::*;

use crate::bytes::{bytes_eq, lit_bytes, str_bytes};
use crate::media::{MediaType, MediaView};
use crate::relpath::{join_comps, join_prefix_with_file, join_with_file};
use crate::slug::{filename_bytes, filename_vec, ContentSlug, SlugStem, SlugView, StemView};
use crate::store::{output_ext, output_filename, output_filename_of};

verus! {

/// Whether a set of template paths holds one path.
pub open spec fn contains_path(ts: Seq<Seq<u8>>, p: Seq<u8>) -> bool {
    exists|i: int| 0 <= i < ts.len() && ts[i] == p
}

/// The `page` file name under a media type: `page` with its output extension.
pub open spec fn page_filename_of(m: MediaView) -> Seq<u8> {
    filename_bytes(StemView::Other(str_bytes("page"@)), output_ext(m))
}

/// The exact-match candidate: the slug's own path with the effective
/// extension.
pub open spec fn exact_candidate(slug: SlugView, m: MediaView) -> Seq<u8> {
    join_comps(slug.parent.push(output_filename_of(slug, m)))
}

/// Walking candidate: `page` with the effective extension in the first `k`
/// directories of the slug's parent path.
pub open spec fn walk_candidate(dirs: Seq<Seq<u8>>, k: int, m: MediaView) -> Seq<u8> {
    join_comps(dirs.take(k).push(page_filename_of(m)))
}

/// Resolution walk: try `page` in the deepest directory first, then one
/// directory up at a time, the root included.
pub open spec fn resolve_walk(ts: Seq<Seq<u8>>, dirs: Seq<Seq<u8>>, k: int, m: MediaView) -> Option<
    Seq<u8>,
>
    decreases k + 1,
{
    if k < 0 {
        Option::None
    } else if contains_path(ts, walk_candidate(dirs, k, m)) {
        Option::Some(walk_candidate(dirs, k, m))
    } else {
        resolve_walk(ts, dirs, k - 1, m)
    }
}

/// Template resolution, first match wins: the exact path if it is indexed,
/// else the nearest `page` template on the walk up from the slug's directory.
pub open spec fn resolve_template(ts: Seq<Seq<u8>>, slug: SlugView, m: MediaView) -> Option<
    Seq<u8>,
> {
    if contains_path(ts, exact_candidate(slug, m)) {
        Option::Some(exact_candidate(slug, m))
    } else {
        resolve_walk(ts, slug.parent, slug.parent.len() as int, m)
    }
}

/// The index of available templates, by path relative to the templates root.
#[derive(Debug)]
pub struct TemplateIndex {
    paths: Vec<Vec<u8>>,
}

impl View for TemplateIndex {
    type V = Seq<Seq<u8>>;

    closed spec fn view(&self) -> Seq<Seq<u8>> {
        self.paths.deep_view()
    }
}

impl TemplateIndex {
    /// An empty index.
    pub fn new() -> (r: TemplateIndex)
        ensures
            r@ == Seq::<Seq<u8>>::empty(),
    {
        let r = TemplateIndex { paths: Vec::new() };
        proof {
            assert(r@ =~= Seq::<Seq<u8>>::empty());
        }
        r
    }

    /// Record one template path.
    pub fn add(&mut self, path: Vec<u8>)
        ensures
            final(self)@ == old(self)@.push(path@),
    {
        broadcast use crate::bytes::lemma_bytes_deep_view;

        self.paths.push(path);
        proof {
            assert(self@ =~~= old(self)@.push(path@));
        }
    }

    /// Whether a path is indexed.
    pub fn contains(&self, p: &Vec<u8>) -> (r: bool)
        ensures
            r == contains_path(self@, p@),
    {
        broadcast use crate::bytes::lemma_bytes_deep_view;

        let n = self.paths.len();
        let mut i: usize = 0;
        while i < n
            invariant
                i <= n,
                n == self@.len(),
                forall|j: int| 0 <= j < i ==> self@[j] != p@,
            decreases n - i,
        {
            if bytes_eq(&self.paths[i], p) {
                proof {
                    assert(self@[i as int] == p@);
                }
                return true;
            }
            proof {
                assert(self@[i as int] == self.paths@[i as int]@);
            }
            i = i + 1;
        }
        false
    }

    /// Find the template that renders a page, by the hierarchical lookup
    /// rule: exact path first, then the nearest `page` template walking up
    /// the directories; none if the walk reaches past the root unmatched.
    pub fn find_template(&self, slug: &ContentSlug, media: &MediaType) -> (r: Option<Vec<u8>>)
        ensures
            r.deep_view() == resolve_template(self@, slug@, media@),
    {
        broadcast use crate::bytes::lemma_bytes_deep_view;

        let exact_file = output_filename(slug, media);
        let exact = join_with_file(&slug.parent, &exact_file);
        if self.contains(&exact) {
            return Option::Some(exact);
        }
        proof {
            reveal_strlit("page");
        }
        let e = media.extension();
        let page_ext = if e.len() == 0 {
            Option::None
        } else {
            Option::Some(e)
        };
        let page_stem = SlugStem::Other(lit_bytes("page"));
        let page_file = filename_vec(&page_stem, &page_ext);
        let ghost dirs = slug@.parent;
        let mut k: usize = slug.parent.len();
        loop
            invariant
                k <= dirs.len(),
                dirs == slug@.parent,
                !contains_path(self@, exact_candidate(slug@, media@)),
                page_file@ == page_filename_of(media@),
                resolve_walk(self@, dirs, dirs.len() as int, media@) == resolve_walk(
                    self@,
                    dirs,
                    k as int,
                    media@,
                ),
            decreases k + 1,
        {
            let cand = join_prefix_with_file(&slug.parent, k, &page_file);
            proof {
                assert(cand@ == walk_candidate(dirs, k as int, media@));
            }
            if self.contains(&cand) {
                proof {
                    assert(resolve_walk(self@, dirs, k as int, media@) == Option::Some(cand@));
                }
                return Option::Some(cand);
            }
            if k == 0 {
                proof {
                    assert(resolve_walk(self@, dirs, -1, media@) is None);
                    assert(resolve_walk(self@, dirs, 0, media@) is None);
                }
                return Option::None;
            }
            proof {
                assert(resolve_walk(self@, dirs, k as int, media@) == resolve_walk(
                    self@,
                    dirs,
                    k - 1,
                    media@,
                ));
            }
            k = k - 1;
        }
    }
}

} // verus!
