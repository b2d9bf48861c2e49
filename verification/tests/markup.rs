use mermaid_svg::markup::{parse_lines, parse_spans, strip_tags, Span, Style};

fn plain(text: &str) -> Span {
    Span {
        text: text.to_string(),
        ..Span::default()
    }
}

#[test]
fn plain_label_is_single_unstyled_span() {
    assert_eq!(parse_spans("hello world"), vec![plain("hello world")]);
    assert!(parse_spans("hello")[0].is_plain());
}

#[test]
fn bold_italic_underline() {
    assert_eq!(
        parse_spans("<b>x</b>"),
        vec![Span {
            text: "x".into(),
            bold: true,
            ..Span::default()
        }]
    );
    assert!(parse_spans("<i>x</i>")[0].italic);
    assert!(parse_spans("<em>x</em>")[0].italic);
    assert!(parse_spans("<strong>x</strong>")[0].bold);
    assert!(parse_spans("<u>x</u>")[0].underline);
}

#[test]
fn mixed_and_nested_runs() {
    let spans = parse_spans("a<b>b<i>c</i></b>d");
    assert_eq!(spans.len(), 4);
    assert_eq!(spans[0], plain("a"));
    assert!(spans[1].bold && !spans[1].italic);
    assert!(spans[2].bold && spans[2].italic);
    assert_eq!(spans[3], plain("d"));
}

#[test]
fn span_color_and_link() {
    let s = parse_spans("<span style=\"color:red\">r</span>");
    assert_eq!(s[0].color.as_deref(), Some("red"));
    let a = parse_spans("<a href=\"https://x\">y</a>");
    assert_eq!(a[0].href.as_deref(), Some("https://x"));
}

#[test]
fn unknown_tags_are_stripped_not_escaped() {
    assert_eq!(parse_spans("a<div>b</div>c"), vec![plain("abc")]);
    assert_eq!(parse_spans("<script>x</script>y"), vec![plain("xy")]);
}

#[test]
fn bare_angle_brackets_stay_literal() {
    assert_eq!(parse_spans("a < b"), vec![plain("a < b")]);
    assert_eq!(parse_spans("x <"), vec![plain("x <")]);
}

#[test]
fn entities_decode_inside_runs() {
    assert_eq!(parse_spans("a #lt;b#gt; c"), vec![plain("a <b> c")]);
    assert_eq!(parse_spans("<b>#hearts;</b>")[0].text, "♥");
}

#[test]
fn strip_tags_leaves_plain_labels_untouched() {
    assert_eq!(strip_tags("hello #gt; world"), "hello #gt; world");
    assert_eq!(strip_tags("a < b"), "a < b");
    assert_eq!(strip_tags("<b>bold</b> and <i>it</i>"), "bold and it");
}

#[test]
fn markdown_string_emphasis_becomes_styled_spans() {
    let bold = parse_spans("`**bold**`");
    assert_eq!(
        bold,
        vec![Span {
            text: "bold".into(),
            bold: true,
            ..Span::default()
        }]
    );
    let italic = parse_spans("`*it*`");
    assert!(italic[0].italic && !italic[0].bold);
    assert!(parse_spans("`__b__`")[0].bold);
    assert!(parse_spans("`_i_`")[0].italic);
}

#[test]
fn markdown_string_mixes_plain_and_emphasis() {
    let spans = parse_spans("`a **b** c`");
    assert_eq!(spans.len(), 3);
    assert_eq!(spans[0], plain("a "));
    assert!(spans[1].bold && spans[1].text == "b");
    assert_eq!(spans[2], plain(" c"));
}

#[test]
fn markdown_string_nests_bold_and_italic() {
    let spans = parse_spans("`**b _bi_**`");
    assert!(spans[0].bold && !spans[0].italic);
    let bi = spans.iter().find(|s| s.text == "bi").unwrap();
    assert!(bi.bold && bi.italic);
}

#[test]
fn plain_fenced_string_is_single_span() {
    assert_eq!(parse_spans("`plain`"), vec![plain("plain")]);
}

#[test]
fn tag_stack_carries_across_lines() {
    let lines = ["<b>line1", "line2</b>", "plain"];
    let parsed = parse_lines(&lines);
    assert!(parsed[0][0].bold);
    assert!(parsed[1][0].bold);
    assert!(!parsed[2][0].bold);
}

#[test]
fn quoted_gt_in_attr_does_not_close_early() {
    let s = parse_spans("<span style=\"color:red\" title=\"a>b\">z</span>");
    assert_eq!(s[0].text, "z");
    assert_eq!(s[0].color.as_deref(), Some("red"));
}

#[test]
fn empty_line_yields_one_empty_plain_span() {
    assert_eq!(parse_spans(""), vec![plain("")]);
    assert_eq!(parse_spans("<b></b>"), vec![plain("")]);
}

#[test]
fn self_closing_tag_styles_nothing() {
    assert_eq!(parse_spans("a<b/>b"), vec![plain("ab")]);
}

#[test]
fn close_tag_restores_outer_style() {
    let s = parse_spans("<b>x<i>y</b>z");
    assert_eq!(s.len(), 3);
    assert!(s[0].bold && !s[0].italic);
    assert!(s[1].bold && s[1].italic);
    assert_eq!(s[2], plain("z"));
}

#[test]
fn single_quoted_href_and_case_insensitive_names() {
    let a = parse_spans("<A HREF='u'>y</A>");
    assert_eq!(a[0].href.as_deref(), Some("u"));
}

#[test]
fn style_without_colon_before_color_gives_no_color() {
    let s = parse_spans("<span style=\"x;color:red\">r</span>");
    assert_eq!(s[0].color, None);
    let t = parse_spans("<span style=\"font-weight:bold; COLOR : blue \">r</span>");
    assert_eq!(t[0].color.as_deref(), Some("blue"));
}

#[test]
fn fenced_line_keeps_the_carried_stack() {
    let lines = ["<b>a", "`*m*`", "c"];
    let p = parse_lines(&lines);
    assert!(p[0][0].bold);
    assert!(p[1][0].italic && !p[1][0].bold);
    assert!(p[2][0].bold);
}

#[test]
fn strip_tags_removes_unknown_and_attrs() {
    assert_eq!(strip_tags("<div class='a>b'>x</div>"), "x");
    assert_eq!(strip_tags("<1>"), "<1>");
}

#[test]
fn span_styled_like_compares_every_field() {
    let s = Span { text: "x".to_string(), bold: true, color: Some("red".to_string()), ..Span::default() };
    let same = Style { bold: true, italic: false, underline: false, color: Some(vec!['r', 'e', 'd']), href: None };
    let other = Style { bold: true, italic: false, underline: false, color: Some(vec!['r', 'e']), href: None };
    let plain = Style { bold: false, italic: false, underline: false, color: None, href: None };
    assert!(s.styled_like(&same));
    assert!(!s.styled_like(&other));
    assert!(!s.styled_like(&plain));
    assert!(Span::default().styled_like(&plain));
}
