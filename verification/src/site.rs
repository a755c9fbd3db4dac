use vstd::prelude::*;

use crate::bytes::{bytes_eq, lit_bytes, str_bytes};
use crate::media::{effective_of, media_of_ext, ContentFile};
use crate::relpath::{ext_of, join_all, join_comps, split_bytes_path, split_path, stem_of};
use crate::slug::{slug_from_comps, slug_of_comps, SlugView};
use crate::store::{
    contains_slug, insert_pos, lemma_sorted_unique, value_at, Metadata, MetadataStore,
    MetadataView,
};
use crate::template::{contains_path, TemplateIndex};
use crate::BuildError;

verus! {

/// Whether a gathered path lies in the content tree.
pub open spec fn is_content_path(p: Seq<u8>) -> bool {
    split_path(p)[0] == str_bytes("content"@)
}

/// Whether a gathered path lies in the templates tree.
pub open spec fn is_template_path(p: Seq<u8>) -> bool {
    split_path(p)[0] == str_bytes("templates"@)
}

/// A content path is acceptable when it has a non-empty file name below the
/// content root and its stem is not the reserved template name `page`.
pub open spec fn content_ok(p: Seq<u8>) -> bool {
    &&& split_path(p).len() >= 2
    &&& split_path(p).last().len() > 0
    &&& stem_of(split_path(p).last()) != str_bytes("page"@)
}

/// The slug of an acceptable content path: its components below the content
/// root.
pub open spec fn content_slug_of(p: Seq<u8>) -> SlugView {
    slug_of_comps(split_path(p).skip(1))
}

/// A template path is acceptable when it carries the template engine's
/// `html` extension.
pub open spec fn template_ok(p: Seq<u8>) -> bool {
    ext_of(split_path(p).last()) == Option::Some(str_bytes("html"@))
}

/// The index key of a template path: its path below the templates root.
pub open spec fn template_rest(p: Seq<u8>) -> Seq<u8> {
    join_comps(split_path(p).skip(1))
}

/// A content page named with the reserved template stem `page`.
pub open spec fn content_reserved(p: Seq<u8>) -> bool {
    is_content_path(p) && stem_of(split_path(p).last()) == str_bytes("page"@)
}

/// A content path without a file name below the content root.
pub open spec fn content_no_filename(p: Seq<u8>) -> bool {
    is_content_path(p) && (split_path(p).len() < 2 || split_path(p).last().len() == 0)
}

/// Whether any gathered path is a configuration error: a content page with a
/// reserved or missing name, or a template without the `html` extension.
pub open spec fn any_bad_path(ps: Seq<Seq<u8>>) -> bool {
    exists|i: int|
        0 <= i < ps.len() && ((is_content_path(ps[i]) && !content_ok(ps[i])) || (is_template_path(
            ps[i],
        ) && !template_ok(ps[i])))
}

/// Whether two distinct content paths collide on one slug.
pub open spec fn any_dup_slug(ps: Seq<Seq<u8>>) -> bool {
    exists|i: int, j: int|
        0 <= i < j < ps.len() && is_content_path(ps[i]) && is_content_path(ps[j]) && content_ok(
            ps[i],
        ) && content_ok(ps[j]) && content_slug_of(ps[i]) == content_slug_of(ps[j])
}

/// The metadata record every content page starts from.
pub open spec fn default_md(slug: SlugView, debug: bool) -> MetadataView {
    MetadataView {
        slug,
        frontmatter: Option::None,
        title: Option::None,
        debug,
        url_path: crate::store::url_path_of(slug, effective_of(media_of_ext(slug.extension))),
        is_article: media_of_ext(slug.extension) is Djot,
        bibliography_file: Option::None,
    }
}

/// The classified site: one metadata record per content page, and the
/// template index.
#[derive(Debug)]
pub struct Site {
    pub store: MetadataStore,
    pub templates: TemplateIndex,
}

/// Classify gathered files, by their top-level directory, into content pages
/// and templates; anything else is left for the static copy. Misnamed
/// content, misnamed templates and slug collisions are configuration errors
/// and fail the whole build before any rendering.
pub fn classify(paths: &Vec<Vec<u8>>, debug: bool) -> (r: Result<Site, BuildError>)
    ensures
        r is Ok <==> (!any_bad_path(paths.deep_view()) && !any_dup_slug(paths.deep_view())),
        r is Ok ==> r->Ok_0.store.wf(),
        r is Ok ==> forall|i: int|
            0 <= i < paths.deep_view().len() && is_content_path(#[trigger] paths.deep_view()[i])
                ==> contains_slug(r->Ok_0.store@, content_slug_of(paths.deep_view()[i]))
                && value_at(r->Ok_0.store@, content_slug_of(paths.deep_view()[i])) == default_md(
                content_slug_of(paths.deep_view()[i]),
                debug,
            ),
        r is Ok ==> forall|key: SlugView| #[trigger]
            contains_slug(r->Ok_0.store@, key) ==> exists|i: int|
                0 <= i < paths.deep_view().len() && is_content_path(
                    #[trigger] paths.deep_view()[i],
                ) && content_slug_of(paths.deep_view()[i]) == key,
        r is Ok ==> forall|i: int|
            0 <= i < paths.deep_view().len() && is_template_path(#[trigger] paths.deep_view()[i])
                ==> contains_path(r->Ok_0.templates@, template_rest(paths.deep_view()[i])),
        r is Ok ==> forall|q: Seq<u8>| #[trigger]
            contains_path(r->Ok_0.templates@, q) ==> exists|i: int|
                0 <= i < paths.deep_view().len() && is_template_path(
                    #[trigger] paths.deep_view()[i],
                ) && template_rest(paths.deep_view()[i]) == q,
        r is Err ==> r->Err_0 == BuildError::NoFileName || r->Err_0 == BuildError::ReservedPageName
            || r->Err_0 == BuildError::TemplateNotHtml || r->Err_0 == BuildError::DuplicateSlug,
        r is Err && r->Err_0 == BuildError::ReservedPageName ==> exists|i: int|
            0 <= i < paths.deep_view().len() && content_reserved(#[trigger] paths.deep_view()[i]),
        r is Err && r->Err_0 == BuildError::NoFileName ==> exists|i: int|
            0 <= i < paths.deep_view().len() && content_no_filename(
                #[trigger] paths.deep_view()[i],
            ),
        r is Err && r->Err_0 == BuildError::TemplateNotHtml ==> exists|i: int|
            0 <= i < paths.deep_view().len() && is_template_path(#[trigger] paths.deep_view()[i])
                && !template_ok(paths.deep_view()[i]),
        r is Err && r->Err_0 == BuildError::DuplicateSlug ==> any_dup_slug(paths.deep_view()),
{
    broadcast use crate::bytes::lemma_bytes_deep_view;

    let ghost ps = paths.deep_view();
    proof {
        reveal_strlit("content");
        reveal_strlit("templates");
        reveal_strlit("page");
        reveal_strlit("html");
    }
    let content_lit = lit_bytes("content");
    let templates_lit = lit_bytes("templates");
    let page_lit = lit_bytes("page");
    let html_lit = lit_bytes("html");
    let mut store = MetadataStore::new();
    let mut templates = TemplateIndex::new();
    let n = paths.len();
    let mut i: usize = 0;
    while i < n
        invariant
            i <= n,
            n == ps.len(),
            ps == paths.deep_view(),
            content_lit@ == str_bytes("content"@),
            templates_lit@ == str_bytes("templates"@),
            page_lit@ == str_bytes("page"@),
            html_lit@ == str_bytes("html"@),
            store.wf(),
            forall|j: int|
                0 <= j < i && is_content_path(#[trigger] ps[j]) ==> content_ok(ps[j]),
            forall|j: int|
                0 <= j < i && is_content_path(#[trigger] ps[j]) ==> contains_slug(
                    store@,
                    content_slug_of(ps[j]),
                ) && value_at(store@, content_slug_of(ps[j])) == default_md(
                    content_slug_of(ps[j]),
                    debug,
                ),
            forall|key: SlugView| #[trigger]
                contains_slug(store@, key) ==> exists|j: int|
                    0 <= j < i && is_content_path(#[trigger] ps[j]) && content_slug_of(ps[j])
                        == key,
            forall|j: int, k: int|
                0 <= j < k < i && is_content_path(#[trigger] ps[j]) && is_content_path(
                    #[trigger] ps[k],
                ) ==> content_slug_of(ps[j]) != content_slug_of(ps[k]),
            forall|j: int|
                0 <= j < i && is_template_path(#[trigger] ps[j]) ==> template_ok(ps[j])
                    && contains_path(templates@, template_rest(ps[j])),
            forall|q: Seq<u8>| #[trigger]
                contains_path(templates@, q) ==> exists|j: int|
                    0 <= j < i && is_template_path(#[trigger] ps[j]) && template_rest(ps[j]) == q,
        decreases n - i,
    {
        proof {
            broadcast use crate::bytes::lemma_bytes_deep_view;

            reveal_strlit("content");
            reveal_strlit("templates");
            reveal_strlit("page");
            reveal_strlit("html");
        }
        let ghost p = ps[i as int];
        let comps = split_bytes_path(&paths[i]);
        proof {
            assert(comps.deep_view() == split_path(paths@[i as int]@));
            assert(paths@[i as int]@ == p);
            crate::relpath::lemma_split_path_len(p);
        }
        let is_content = bytes_eq(&comps[0], &content_lit);
        let is_template = !is_content && bytes_eq(&comps[0], &templates_lit);
        proof {
            assert(comps@[0]@ == split_path(p)[0]);
            assert(is_content == is_content_path(p));
            assert(is_template == is_template_path(p));
        }
        if is_content {
            let last_idx = comps.len() - 1;
            let (stem_bytes, _ext) = crate::relpath::split_filename(&comps[last_idx]);
            proof {
                assert(comps@[last_idx as int]@ == split_path(p).last());
            }
            if bytes_eq(&stem_bytes, &page_lit) {
                proof {
                    assert(content_reserved(p));
                    assert(!content_ok(p));
                }
                return Result::Err(BuildError::ReservedPageName);
            }
            if comps.len() == 1 {
                proof {
                    assert(content_no_filename(p));
                    assert(!content_ok(p));
                }
                return Result::Err(BuildError::NoFileName);
            }
            let mut rest = comps;
            rest.remove(0);
            proof {
                assert(rest.deep_view() =~~= split_path(p).skip(1));
                assert(rest.deep_view().last() == split_path(p).last());
            }
            let slug = match slug_from_comps(rest) {
                Result::Ok(slug) => slug,
                Result::Err(e) => {
                    proof {
                        assert(content_no_filename(p));
                        assert(!content_ok(p));
                    }
                    return Result::Err(e);
                },
            };
            proof {
                assert(content_ok(p));
                assert(slug@ == content_slug_of(p));
            }
            let file = ContentFile::from_extension(&slug.extension);
            let ghost slug_v = slug@;
            let md = Metadata::new(debug, slug, &file);
            proof {
                assert(md@ =~= default_md(slug_v, debug));
            }
            let ghost s_old = store@;
            match store.insert(md) {
                Result::Ok(()) => {},
                Result::Err(_) => {
                    proof {
                        assert(contains_slug(s_old, slug_v));
                        let j = choose|j: int|
                            0 <= j < i && is_content_path(#[trigger] ps[j]) && content_slug_of(
                                ps[j],
                            ) == slug_v;
                        assert(0 <= j < i as int);
                        assert((i as int) < ps.len());
                        assert(is_content_path(ps[j]) && is_content_path(ps[i as int]));
                        assert(content_ok(ps[j]) && content_ok(ps[i as int]));
                        assert(content_slug_of(ps[j]) == content_slug_of(ps[i as int]));
                        assert(any_dup_slug(ps));
                    }
                    return Result::Err(BuildError::DuplicateSlug);
                },
            }
            proof {
                let pos = insert_pos(s_old, slug_v);
                let t = store@;
                assert(t == s_old.insert(pos, default_md(slug_v, debug)));
                assert(0 <= pos <= s_old.len()) by {
                    lemma_insert_pos_bounds(s_old, slug_v);
                }
                assert forall|key: SlugView| #[trigger] contains_slug(t, key) && key != slug_v
                    implies contains_slug(s_old, key) && value_at(t, key) == value_at(
                    s_old,
                    key,
                ) by {
                    let w = choose|w: int| 0 <= w < t.len() && t[w].slug == key;
                    if w < pos {
                        assert(t[w] == s_old[w]);
                        lemma_sorted_unique(s_old, w, key);
                        lemma_sorted_unique(t, w, key);
                    } else if w == pos {
                        assert(t[w] == default_md(slug_v, debug));
                    } else {
                        assert(t[w] == s_old[w - 1]);
                        lemma_sorted_unique(s_old, w - 1, key);
                        lemma_sorted_unique(t, w, key);
                    }
                }
                assert(t[pos] == default_md(slug_v, debug));
                lemma_sorted_unique(t, pos, slug_v);
                assert forall|key: SlugView| #[trigger]
                    contains_slug(t, key) implies key == slug_v || contains_slug(
                    s_old,
                    key,
                ) by {
                    let w = choose|w: int| 0 <= w < t.len() && t[w].slug == key;
                    if w < pos {
                        assert(t[w] == s_old[w]);
                    } else if w > pos {
                        assert(t[w] == s_old[w - 1]);
                    }
                }
                assert forall|key: SlugView| contains_slug(s_old, key) implies #[trigger]
                    contains_slug(t, key) by {
                    let w = choose|w: int| 0 <= w < s_old.len() && s_old[w].slug == key;
                    if w < pos {
                        assert(t[w] == s_old[w]);
                        lemma_sorted_unique(t, w, key);
                    } else {
                        assert(t[w + 1] == s_old[w]);
                        lemma_sorted_unique(t, w + 1, key);
                    }
                }
                assert forall|j: int|
                    0 <= j < i + 1 && is_content_path(#[trigger] ps[j]) implies contains_slug(
                    store@,
                    content_slug_of(ps[j]),
                ) && value_at(store@, content_slug_of(ps[j])) == default_md(
                    content_slug_of(ps[j]),
                    debug,
                ) by {
                    if j < i {
                        let key = content_slug_of(ps[j]);
                        assert(contains_slug(s_old, key));
                        assert(value_at(s_old, key) == default_md(key, debug));
                        assert(key != slug_v);
                        assert(contains_slug(t, key));
                        assert(value_at(t, key) == value_at(s_old, key));
                    } else {
                        assert(ps[j] == p);
                        assert(contains_slug(t, slug_v));
                        assert(value_at(t, slug_v) == default_md(slug_v, debug));
                    }
                }
            }
        } else if is_template {
            let last_idx = comps.len() - 1;
            let (_stem, ext) = crate::relpath::split_filename(&comps[last_idx]);
            proof {
                assert(comps@[last_idx as int]@ == split_path(p).last());
            }
            let ext_ok = match &ext {
                Option::Some(e) => bytes_eq(e, &html_lit),
                Option::None => false,
            };
            if !ext_ok {
                proof {
                    assert(is_template_path(p) && !template_ok(p));
                }
                return Result::Err(BuildError::TemplateNotHtml);
            }
            let mut rest = comps;
            rest.remove(0);
            proof {
                assert(rest.deep_view() =~~= split_path(p).skip(1));
            }
            let rest_path = join_all(&rest);
            proof {
                assert(rest_path@ == template_rest(p));
            }
            let ghost t_old = templates@;
            templates.add(rest_path);
            proof {
                assert forall|q: Seq<u8>| contains_path(t_old, q) implies #[trigger] contains_path(
                    templates@,
                    q,
                ) by {
                    let w = choose|w: int| 0 <= w < t_old.len() && t_old[w] == q;
                    assert(templates@[w] == q);
                }
                assert(templates@[t_old.len() as int] == template_rest(p));
                assert(contains_path(templates@, template_rest(p)));
                assert forall|q: Seq<u8>| #[trigger] contains_path(templates@, q) implies q
                    == template_rest(p) || contains_path(t_old, q) by {
                    let w = choose|w: int| 0 <= w < templates@.len() && templates@[w] == q;
                    if w < t_old.len() {
                        assert(t_old[w] == q);
                    }
                }
            }
        }
        i = i + 1;
    }
    let site = Site { store, templates };
    Result::Ok(site)
}

proof fn lemma_insert_pos_bounds(s: Seq<MetadataView>, key: SlugView)
    ensures
        0 <= insert_pos(s, key) <= s.len(),
    decreases s.len(),
{
    if s.len() > 0 && crate::slug::slug_lt(s[0].slug, key) {
        lemma_insert_pos_bounds(s.skip(1), key);
    }
}

} // verus!
