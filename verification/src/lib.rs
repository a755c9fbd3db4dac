//! The content pipeline of a small static site generator, with its behaviour
//! stated in contracts and proved.
//!
//! Content files get a canonical, totally ordered address (`slug`), one
//! metadata record each (`store`), and a transform plan from their media type
//! (`media`). Markup documents have frontmatter and title extracted
//! (`render`), inline citations spliced and a reference list appended
//! (`cite`, `cite_html`, `bib`), and are then wrapped in a template found by
//! a hierarchical lookup (`template`). `site` classifies the gathered input
//! files into all of the above; `outside` declares the few outside calls the
//! pipeline trusts.

use vstd::prelude::*;

pub mod bib;
pub mod bytes;
pub mod cite;
pub mod cite_html;
pub mod events;
pub mod media;
pub mod outside;
pub mod relpath;
pub mod render;
pub mod site;
pub mod slug;
pub mod store;
pub mod template;

verus! {

/// Failures the pipeline can report.
///
/// Configuration errors abort the build before any rendering begins; content
/// errors abort the build of the file they were found in.
#[derive(Debug, Clone, Copy, PartialEq, Eq, Structural)]
pub enum BuildError {
    /// A path destined for the content tree has no file name component.
    NoFileName,
    /// A content page is named `page`, which is reserved for templates.
    ReservedPageName,
    /// A template file does not carry the template engine's `html` extension.
    TemplateNotHtml,
    /// Two content paths normalized to the same slug.
    DuplicateSlug,
    /// The leading frontmatter block is not well-formed structured data.
    MalformedFrontmatter,
    /// A document contains more than one top-level heading.
    MultipleTitles,
    /// The referenced bibliography source could not be parsed.
    MalformedLibrary,
}

} // verus!
