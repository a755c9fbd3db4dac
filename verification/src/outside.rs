use vstd::prelude::*;

verus! {

/// What the frontmatter text parses to: nothing when it is not one
/// well-formed JSON document, otherwise its string field `bibliography`, if
/// it has one.
pub uninterp spec fn frontmatter_of(text: Seq<u8>) -> Option<Option<Seq<u8>>>;

/// Relies on serde_json::from_str: whether a text is one well-formed JSON
/// document, and what its `bibliography` string field holds, are functions
/// of the text alone.
#[verifier::external_body]
pub(crate) fn parse_frontmatter_json(text: &Vec<u8>) -> (r: Option<Option<Vec<u8>>>)
    ensures
        r.deep_view() == frontmatter_of(text@),
{
    let s = match core::str::from_utf8(text) {
        Ok(s) => s,
        Err(_) => return None,
    };
    let v: serde_json::Value = match serde_json::from_str(s) {
        Ok(v) => v,
        Err(_) => return None,
    };
    Some(
        v.as_object()
            .and_then(|m| m.get("bibliography"))
            .and_then(|b| b.as_str())
            .map(|b| b.as_bytes().to_vec()),
    )
}

/// What a bibliography source parses to: nothing when it is not well-formed
/// BibLaTeX, otherwise its entry keys, in the library's own order.
pub uninterp spec fn library_keys_of(text: Seq<u8>) -> Option<Seq<Seq<u8>>>;

/// Relies on hayagriva::io::from_biblatex_str: whether a text is a
/// well-formed BibLaTeX library, and which entry keys it holds, are
/// functions of the text alone.
#[verifier::external_body]
pub(crate) fn parse_library_keys(text: &Vec<u8>) -> (r: Option<Vec<Vec<u8>>>)
    ensures
        r.deep_view() == library_keys_of(text@),
{
    let s = match core::str::from_utf8(text) {
        Ok(s) => s,
        Err(_) => return None,
    };
    let library = match hayagriva::io::from_biblatex_str(s) {
        Ok(library) => library,
        Err(_) => return None,
    };
    Some(library.keys().map(|k| k.as_bytes().to_vec()).collect())
}

} // verus!
