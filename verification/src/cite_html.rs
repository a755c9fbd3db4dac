use vstd::prelude::*;

use crate::bib::ref_anchor;
use crate::bytes::{extend_bytes, lit_bytes, str_bytes};

verus! {

/// Font weight of a formatted citation fragment.
#[derive(Debug, Clone, Copy, PartialEq, Eq, Structural)]
pub enum Weight {
    Normal,
    Bold,
    Light,
}

/// Vertical alignment of a formatted citation fragment.
#[derive(Debug, Clone, Copy, PartialEq, Eq, Structural)]
pub enum VAlign {
    Baseline,
    Sub,
    Sup,
}

/// The non-default text formatting of a citation fragment.
#[derive(Debug, Clone, Copy, PartialEq, Eq, Structural)]
pub struct Fmt {
    pub italic: bool,
    pub weight: Weight,
    pub underline: bool,
    pub small_caps: bool,
    pub valign: VAlign,
}

/// Block display of a grouped citation element.
#[derive(Debug, Clone, Copy, PartialEq, Eq, Structural)]
pub enum DisplayKind {
    Block,
    Indent,
    LeftMargin,
    RightInline,
}

/// One element of a rendered citation, as the citation engine structures
/// it: formatted text, nested groups that may link to a reference entry,
/// raw markup, hyperlinks, and transparent placeholders.
#[derive(Debug)]
pub enum CElem {
    /// Formatted text; no formatting means no wrapping span.
    Text { fmt: Option<Fmt>, text: Vec<u8> },
    /// A group of children, optionally linked to the reference entry of a
    /// key and optionally displayed as a block.
    Group { link_key: Option<Vec<u8>>, display: Option<DisplayKind>, children: Vec<CElem> },
    /// Raw markup, emitted as is.
    Markup(Vec<u8>),
    /// A hyperlink with formatted anchor text.
    Link { fmt: Option<Fmt>, text: Vec<u8>, url: Vec<u8> },
    /// A placeholder that renders as nothing.
    Transparent,
}

/// The inline CSS of a formatting.
pub open spec fn css_of(f: Fmt) -> Seq<u8> {
    (if f.italic {
        str_bytes("font-style: italic;"@)
    } else {
        Seq::<u8>::empty()
    }) + (match f.weight {
        Weight::Bold => str_bytes("font-weight: bold;"@),
        Weight::Light => str_bytes("font-weight: lighter;"@),
        Weight::Normal => Seq::<u8>::empty(),
    }) + (if f.underline {
        str_bytes("text-decoration: underline;"@)
    } else {
        Seq::<u8>::empty()
    }) + (if f.small_caps {
        str_bytes("font-variant: small-caps;"@)
    } else {
        Seq::<u8>::empty()
    }) + (match f.valign {
        VAlign::Sub => str_bytes("vertical-align: sub;"@),
        VAlign::Sup => str_bytes("vertical-align: super;"@),
        VAlign::Baseline => Seq::<u8>::empty(),
    })
}

/// Text wrapped in a styled span when it carries formatting.
pub open spec fn spanned(fmt: Option<Fmt>, text: Seq<u8>) -> Seq<u8> {
    match fmt {
        Option::None => text,
        Option::Some(f) => str_bytes("<span style=\""@) + css_of(f) + str_bytes("\">"@) + text
            + str_bytes("</span>"@),
    }
}

/// The opening tag of a group's reference link.
pub open spec fn link_open(key: Seq<u8>) -> Seq<u8> {
    str_bytes("<a href=\"#"@) + ref_anchor(key) + str_bytes("\">"@)
}

/// The opening tag of a group's block display.
pub open spec fn div_open(d: DisplayKind) -> Seq<u8> {
    match d {
        DisplayKind::Block => str_bytes("<div>\n"@),
        DisplayKind::Indent => str_bytes("<div style=\"padding-left: 4em;\">"@),
        DisplayKind::LeftMargin => str_bytes("<div style=\"float: left;\">"@),
        DisplayKind::RightInline => str_bytes("<div style=\"float: right; clear: both;\">"@),
    }
}

/// The HTML of one citation element.
pub open spec fn celem_html(e: CElem) -> Seq<u8>
    decreases e,
{
    match e {
        CElem::Text { fmt, text } => spanned(fmt, text@),
        CElem::Markup(m) => m@,
        CElem::Link { fmt, text, url } => str_bytes("<a href=\""@) + url@ + str_bytes("\">"@)
            + spanned(fmt, text@) + str_bytes("</a>"@),
        CElem::Transparent => Seq::empty(),
        CElem::Group { link_key, display, children } => (match link_key {
            Option::Some(key) => link_open(key@),
            Option::None => Seq::<u8>::empty(),
        }) + (match display {
            Option::Some(d) => div_open(d),
            Option::None => Seq::<u8>::empty(),
        }) + celems_html(children@, 0) + (match display {
            Option::Some(_) => str_bytes("</div>\n"@),
            Option::None => Seq::<u8>::empty(),
        }) + (match link_key {
            Option::Some(_) => str_bytes("</a>"@),
            Option::None => Seq::<u8>::empty(),
        }),
    }
}

/// The HTML of the elements from the `i`-th on.
pub open spec fn celems_html(es: Seq<CElem>, i: int) -> Seq<u8>
    decreases es, es.len() - i,
{
    if i < 0 || i >= es.len() {
        Seq::empty()
    } else {
        celem_html(es[i]) + celems_html(es, i + 1)
    }
}

/// Append the CSS of a formatting.
#[verifier::rlimit(100)]
fn push_css(f: &Fmt, out: &mut Vec<u8>)
    ensures
        final(out)@ == old(out)@ + css_of(*f),
{
    proof {
        reveal_strlit("font-style: italic;");
        reveal_strlit("font-weight: bold;");
        reveal_strlit("font-weight: lighter;");
        reveal_strlit("text-decoration: underline;");
        reveal_strlit("font-variant: small-caps;");
        reveal_strlit("vertical-align: sub;");
        reveal_strlit("vertical-align: super;");
    }
    let ghost base = out@;
    if f.italic {
        let lit = lit_bytes("font-style: italic;");
        extend_bytes(out, &lit);
    }
    match f.weight {
        Weight::Bold => {
            let lit = lit_bytes("font-weight: bold;");
            extend_bytes(out, &lit);
        },
        Weight::Light => {
            let lit = lit_bytes("font-weight: lighter;");
            extend_bytes(out, &lit);
        },
        Weight::Normal => {},
    }
    if f.underline {
        let lit = lit_bytes("text-decoration: underline;");
        extend_bytes(out, &lit);
    }
    if f.small_caps {
        let lit = lit_bytes("font-variant: small-caps;");
        extend_bytes(out, &lit);
    }
    match f.valign {
        VAlign::Sub => {
            let lit = lit_bytes("vertical-align: sub;");
            extend_bytes(out, &lit);
        },
        VAlign::Sup => {
            let lit = lit_bytes("vertical-align: super;");
            extend_bytes(out, &lit);
        },
        VAlign::Baseline => {},
    }
    proof {
        assert(out@ =~= base + css_of(*f));
    }
}

/// Append text, wrapped in a styled span when it carries formatting.
fn push_spanned(fmt: &Option<Fmt>, text: &Vec<u8>, out: &mut Vec<u8>)
    ensures
        final(out)@ == old(out)@ + spanned(*fmt, text@),
{
    proof {
        reveal_strlit("<span style=\"");
        reveal_strlit("\">");
        reveal_strlit("</span>");
    }
    let ghost base = out@;
    match fmt {
        Option::None => {
            extend_bytes(out, text);
        },
        Option::Some(f) => {
            let open = lit_bytes("<span style=\"");
            extend_bytes(out, &open);
            push_css(f, out);
            let close_attr = lit_bytes("\">");
            extend_bytes(out, &close_attr);
            extend_bytes(out, text);
            let close = lit_bytes("</span>");
            extend_bytes(out, &close);
            proof {
                assert(out@ =~= base + spanned(*fmt, text@));
            }
        },
    }
}

/// Append the HTML of one citation element.
fn push_celem(e: &CElem, out: &mut Vec<u8>)
    ensures
        final(out)@ == old(out)@ + celem_html(*e),
    decreases *e,
{
    proof {
        reveal_strlit("<a href=\"");
        reveal_strlit("<a href=\"#");
        reveal_strlit("ref-");
        reveal_strlit("\">");
        reveal_strlit("</a>");
        reveal_strlit("<div>\n");
        reveal_strlit("<div style=\"padding-left: 4em;\">");
        reveal_strlit("<div style=\"float: left;\">");
        reveal_strlit("<div style=\"float: right; clear: both;\">");
        reveal_strlit("</div>\n");
    }
    let ghost base = out@;
    match e {
        CElem::Text { fmt, text } => {
            push_spanned(fmt, text, out);
        },
        CElem::Markup(m) => {
            extend_bytes(out, m);
        },
        CElem::Transparent => {},
        CElem::Link { fmt, text, url } => {
            let open = lit_bytes("<a href=\"");
            extend_bytes(out, &open);
            extend_bytes(out, url);
            let close_attr = lit_bytes("\">");
            extend_bytes(out, &close_attr);
            push_spanned(fmt, text, out);
            let close = lit_bytes("</a>");
            extend_bytes(out, &close);
            proof {
                assert(out@ =~= base + celem_html(*e));
            }
        },
        CElem::Group { link_key, display, children } => {
            match link_key {
                Option::Some(key) => {
                    let open = lit_bytes("<a href=\"#");
                    extend_bytes(out, &open);
                    let pre = lit_bytes("ref-");
                    extend_bytes(out, &pre);
                    extend_bytes(out, key);
                    let close_attr = lit_bytes("\">");
                    extend_bytes(out, &close_attr);
                },
                Option::None => {},
            }
            match display {
                Option::Some(d) => {
                    let tag = match d {
                        DisplayKind::Block => lit_bytes("<div>\n"),
                        DisplayKind::Indent => lit_bytes("<div style=\"padding-left: 4em;\">"),
                        DisplayKind::LeftMargin => lit_bytes("<div style=\"float: left;\">"),
                        DisplayKind::RightInline => lit_bytes(
                            "<div style=\"float: right; clear: both;\">",
                        ),
                    };
                    extend_bytes(out, &tag);
                },
                Option::None => {},
            }
            push_celems(children, 0, out);
            match display {
                Option::Some(_) => {
                    let close = lit_bytes("</div>\n");
                    extend_bytes(out, &close);
                },
                Option::None => {},
            }
            match link_key {
                Option::Some(_) => {
                    let close = lit_bytes("</a>");
                    extend_bytes(out, &close);
                },
                Option::None => {},
            }
            proof {
                assert(out@ =~= base + celem_html(*e));
            }
        },
    }
}

/// Append the HTML of the elements from the `i`-th on.
fn push_celems(es: &Vec<CElem>, i: usize, out: &mut Vec<u8>)
    requires
        i <= es@.len(),
    ensures
        final(out)@ == old(out)@ + celems_html(es@, i as int),
    decreases *es, es@.len() - i,
{
    if i == es.len() {
        proof {
            assert(old(out)@ + celems_html(es@, i as int) =~= out@);
        }
        return ;
    }
    let ghost base = out@;
    push_celem(&es[i], out);
    push_celems(es, i + 1, out);
    proof {
        assert(out@ =~= base + celem_html(es@[i as int]) + celems_html(es@, i + 1));
        assert(base + celem_html(es@[i as int]) + celems_html(es@, i + 1) =~= base + celems_html(
            es@,
            i as int,
        ));
    }
}

/// Render one citation, as the engine structured it, to its HTML fragment.
pub fn citation_html(elems: &Vec<CElem>) -> (r: Vec<u8>)
    ensures
        r@ == celems_html(elems@, 0),
{
    let mut out: Vec<u8> = Vec::new();
    push_celems(elems, 0, &mut out);
    proof {
        assert(Seq::<u8>::empty() + celems_html(elems@, 0) =~= celems_html(elems@, 0));
    }
    out
}

} // verus!
