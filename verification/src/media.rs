use vstd::prelude::*;

use crate::bytes::{bytes_eq, clone_bytes, clone_opt_bytes, lit_bytes, str_bytes};

verus! {

/// Media type of a content file, derived from its extension.
#[derive(Debug, Clone)]
pub enum MediaType {
    /// Lightweight markup, rendered to HTML.
    Djot,
    /// The template engine's native format.
    Html,
    /// Anything else: copied through unchanged.
    Other(Option<Vec<u8>>),
}

/// Mathematical model of a media type.
#[verifier::ext_equal]
pub enum MediaView {
    Djot,
    Html,
    Other(Option<Seq<u8>>),
}

impl View for MediaType {
    type V = MediaView;

    open spec fn view(&self) -> MediaView {
        match self {
            MediaType::Djot => MediaView::Djot,
            MediaType::Html => MediaView::Html,
            MediaType::Other(ext) => MediaView::Other(ext.deep_view()),
        }
    }
}

/// One step of a content file's transform plan.
#[derive(Debug, Clone, Copy, PartialEq, Eq, Structural)]
pub enum Transform {
    RenderDjot,
    ApplyTemplate,
}

/// The media type an extension denotes.
pub open spec fn media_of_ext(ext: Option<Seq<u8>>) -> MediaView {
    match ext {
        Option::Some(e) => if e == str_bytes("dj"@) {
            MediaView::Djot
        } else if e == str_bytes("html"@) {
            MediaView::Html
        } else {
            MediaView::Other(Option::Some(e))
        },
        Option::None => MediaView::Other(Option::None),
    }
}

/// The output extension of a media type; empty for extension-less files.
pub open spec fn extension_of(m: MediaView) -> Seq<u8> {
    match m {
        MediaView::Djot => str_bytes("dj"@),
        MediaView::Html => str_bytes("html"@),
        MediaView::Other(e) => match e {
            Option::Some(x) => x,
            Option::None => Seq::empty(),
        },
    }
}

/// The transform plan of an original media type: markup is rendered and then
/// templated, native HTML is only templated, anything else is copied.
pub open spec fn plan_of(m: MediaView) -> Seq<Transform> {
    match m {
        MediaView::Djot => seq![Transform::RenderDjot, Transform::ApplyTemplate],
        MediaView::Html => seq![Transform::ApplyTemplate],
        MediaView::Other(_) => Seq::empty(),
    }
}

/// The media type a file has after its plan ran.
pub open spec fn effective_of(m: MediaView) -> MediaView {
    match m {
        MediaView::Djot => MediaView::Html,
        other => other,
    }
}

/// Classify an extension into a media type.
pub fn media_type_of(ext: &Option<Vec<u8>>) -> (m: MediaType)
    ensures
        m@ == media_of_ext(ext.deep_view()),
{
    broadcast use crate::bytes::lemma_bytes_deep_view;

    match ext {
        Option::None => MediaType::Other(Option::None),
        Option::Some(e) => {
            proof {
                reveal_strlit("dj");
                reveal_strlit("html");
            }
            let dj = lit_bytes("dj");
            let html = lit_bytes("html");
            if bytes_eq(e, &dj) {
                MediaType::Djot
            } else if bytes_eq(e, &html) {
                MediaType::Html
            } else {
                MediaType::Other(Option::Some(clone_bytes(e)))
            }
        },
    }
}

impl MediaType {
    /// Verified copy of a media type.
    pub fn duplicate(&self) -> (r: MediaType)
        ensures
            r@ == self@,
    {
        broadcast use crate::bytes::lemma_bytes_deep_view;

        match self {
            MediaType::Djot => MediaType::Djot,
            MediaType::Html => MediaType::Html,
            MediaType::Other(ext) => MediaType::Other(clone_opt_bytes(ext)),
        }
    }

    /// The output extension of this media type.
    pub fn extension(&self) -> (r: Vec<u8>)
        ensures
            r@ == extension_of(self@),
    {
        broadcast use crate::bytes::lemma_bytes_deep_view;

        match self {
            MediaType::Djot => {
                proof {
                    reveal_strlit("dj");
                }
                lit_bytes("dj")
            },
            MediaType::Html => {
                proof {
                    reveal_strlit("html");
                }
                lit_bytes("html")
            },
            MediaType::Other(ext) => match ext {
                Option::Some(e) => clone_bytes(e),
                Option::None => Vec::new(),
            },
        }
    }
}

/// A content file's media types and transform plan.
#[derive(Debug)]
pub struct ContentFile {
    /// Media type of the source file.
    pub original_media: MediaType,
    /// Media type after the plan runs.
    pub current_media: MediaType,
    /// The transform steps, in execution order.
    pub plan: Vec<Transform>,
}

impl ContentFile {
    /// Well-formedness: the plan and effective type follow from the original
    /// media type.
    pub open spec fn wf(self) -> bool {
        &&& self.plan@ == plan_of(self.original_media@)
        &&& self.current_media@ == effective_of(self.original_media@)
    }

    /// Derive the plan of a content file from its source extension.
    pub fn from_extension(ext: &Option<Vec<u8>>) -> (r: ContentFile)
        ensures
            r.wf(),
            r.original_media@ == media_of_ext(ext.deep_view()),
    {
        let original_media = media_type_of(ext);
        let current_media;
        let mut plan: Vec<Transform> = Vec::new();
        match &original_media {
            MediaType::Djot => {
                plan.push(Transform::RenderDjot);
                plan.push(Transform::ApplyTemplate);
                current_media = MediaType::Html;
            },
            MediaType::Html => {
                plan.push(Transform::ApplyTemplate);
                current_media = MediaType::Html;
            },
            MediaType::Other(_) => {
                current_media = original_media.duplicate();
            },
        }
        let r = ContentFile { original_media, current_media, plan };
        proof {
            assert(r.plan@ =~= plan_of(r.original_media@));
        }
        r
    }

    /// Whether the file originated from rendered markup.
    pub fn is_article(&self) -> (r: bool)
        ensures
            r == (self.original_media@ is Djot),
    {
        matches!(self.original_media, MediaType::Djot)
    }
}

} // verus!
