use sitegen::cite_html::{citation_html, CElem, DisplayKind, Fmt, VAlign, Weight};

fn strv(s: &str) -> Vec<u8> {
    s.as_bytes().to_vec()
}

fn plain_fmt() -> Fmt {
    Fmt {
        italic: false,
        weight: Weight::Normal,
        underline: false,
        small_caps: false,
        valign: VAlign::Baseline,
    }
}

#[test]
fn plain_text_passes_through() {
    let elems = vec![CElem::Text { fmt: None, text: strv("Anna 2001") }];
    assert_eq!(citation_html(&elems), strv("Anna 2001"));
}

#[test]
fn formatted_text_gets_a_styled_span() {
    let fmt = Fmt { italic: true, ..plain_fmt() };
    let elems = vec![CElem::Text { fmt: Some(fmt), text: strv("X") }];
    assert_eq!(
        citation_html(&elems),
        strv("<span style=\"font-style: italic;\">X</span>")
    );
}

#[test]
fn all_css_properties_render() {
    let fmt = Fmt {
        italic: true,
        weight: Weight::Bold,
        underline: true,
        small_caps: true,
        valign: VAlign::Sup,
    };
    let elems = vec![CElem::Text { fmt: Some(fmt), text: strv("Y") }];
    let want = "<span style=\"font-style: italic;font-weight: bold;text-decoration: underline;font-variant: small-caps;vertical-align: super;\">Y</span>";
    assert_eq!(citation_html(&elems), strv(want));
}

#[test]
fn linked_group_wraps_children_in_an_anchor() {
    let elems = vec![CElem::Group {
        link_key: Some(strv("a")),
        display: Some(DisplayKind::Block),
        children: vec![CElem::Text { fmt: None, text: strv("[1]") }],
    }];
    assert_eq!(
        citation_html(&elems),
        strv("<a href=\"#ref-a\"><div>\n[1]</div>\n</a>")
    );
}

#[test]
fn display_kinds_render_their_divs() {
    let mk = |d: DisplayKind| {
        citation_html(&vec![CElem::Group {
            link_key: None,
            display: Some(d),
            children: vec![CElem::Text { fmt: None, text: strv("x") }],
        }])
    };
    assert_eq!(
        mk(DisplayKind::Indent),
        strv("<div style=\"padding-left: 4em;\">x</div>\n")
    );
    assert_eq!(
        mk(DisplayKind::LeftMargin),
        strv("<div style=\"float: left;\">x</div>\n")
    );
    assert_eq!(
        mk(DisplayKind::RightInline),
        strv("<div style=\"float: right; clear: both;\">x</div>\n")
    );
}

#[test]
fn links_markup_and_transparent_render() {
    let elems = vec![
        CElem::Link { fmt: None, text: strv("site"), url: strv("https://e.example") },
        CElem::Markup(strv("&nbsp;")),
        CElem::Transparent,
    ];
    assert_eq!(
        citation_html(&elems),
        strv("<a href=\"https://e.example\">site</a>&nbsp;")
    );
}

#[test]
fn nested_groups_concatenate_in_order() {
    let elems = vec![CElem::Group {
        link_key: None,
        display: None,
        children: vec![
            CElem::Text { fmt: None, text: strv("a") },
            CElem::Group {
                link_key: None,
                display: None,
                children: vec![CElem::Text { fmt: None, text: strv("b") }],
            },
            CElem::Text { fmt: None, text: strv("c") },
        ],
    }];
    assert_eq!(citation_html(&elems), strv("abc"));
}
