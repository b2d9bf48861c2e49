use mermaid_svg::style::{pick, resolve_edge_style, resolve_style, Style};
use vstd::hash_map::StringHashMap;

fn s(pairs: &[(&str, &str)]) -> Style {
    pairs
        .iter()
        .map(|(k, v)| (k.to_string(), v.to_string()))
        .collect()
}

#[test]
fn default_classdef_applies_to_unclassed() {
    let mut defs = StringHashMap::new();
    defs.insert("default".to_string(), s(&[("fill", "#eee")]));
    let r = resolve_style(&defs, &[], &Style::new());
    assert_eq!(r.fill.as_deref(), Some("#eee"));
}

#[test]
fn precedence_default_named_inline() {
    let mut defs = StringHashMap::new();
    defs.insert("default".to_string(), s(&[("fill", "#111")]));
    defs.insert("foo".to_string(), s(&[("fill", "#222")]));
    let inline = s(&[("fill", "#333")]);
    let r = resolve_style(&defs, &["foo".to_string()], &inline);
    assert_eq!(r.fill.as_deref(), Some("#333"));
    let r2 = resolve_style(&defs, &["foo".to_string()], &Style::new());
    assert_eq!(r2.fill.as_deref(), Some("#222"));
}

#[test]
fn later_class_wins_on_conflict() {
    let mut defs = StringHashMap::new();
    defs.insert("a".to_string(), s(&[("stroke", "#a00")]));
    defs.insert("b".to_string(), s(&[("stroke", "#0b0")]));
    let r = resolve_style(&defs, &["a".to_string(), "b".to_string()], &Style::new());
    assert_eq!(r.stroke.as_deref(), Some("#0b0"));
}

#[test]
fn strips_px_units() {
    let r = pick(&s(&[("stroke-width", "4px"), ("font-size", "18px")]));
    assert_eq!(r.stroke_width.as_deref(), Some("4"));
    assert_eq!(r.font_size.as_deref(), Some("18"));
}

#[test]
fn honors_font_weight_style_opacity() {
    let r = pick(&s(&[
        ("font-weight", "bold"),
        ("font-style", "italic"),
        ("opacity", "0.5"),
    ]));
    assert_eq!(r.font_weight.as_deref(), Some("bold"));
    assert_eq!(r.font_style.as_deref(), Some("italic"));
    assert_eq!(r.opacity.as_deref(), Some("0.5"));
    assert_eq!(r.text_attrs(), " font-weight=\"bold\" font-style=\"italic\"");
    assert!(r.shape_attrs("#fff", "#000", "1").contains("opacity=\"0.5\""));
}

#[test]
fn edge_default_then_indexed() {
    let default = s(&[("stroke", "#000"), ("stroke-width", "1")]);
    let indexed = s(&[("stroke", "#ff3")]);
    let r = resolve_edge_style(&default, Some(&indexed));
    assert_eq!(r.stroke.as_deref(), Some("#ff3"));
    assert_eq!(r.stroke_width.as_deref(), Some("1"));
}

#[test]
fn shape_attrs_exact_text() {
    let r = pick(&s(&[("fill", "red"), ("stroke-dasharray", "5 3")]));
    assert_eq!(
        r.shape_attrs("#fff", "#000", "1"),
        "fill=\"red\" stroke=\"#000\" stroke-width=\"1\" stroke-dasharray=\"5 3\""
    );
    let empty = pick(&Style::new());
    assert_eq!(empty.shape_attrs("a", "b", "c"), "fill=\"a\" stroke=\"b\" stroke-width=\"c\"");
    assert_eq!(empty.text_attrs(), "");
}

#[test]
fn repeated_px_suffix_and_spaces_are_stripped() {
    let r = pick(&s(&[("stroke-width", " 2pxpx")]));
    assert_eq!(r.stroke_width.as_deref(), Some("2"));
}

#[test]
fn label_fill_and_stroke_fallbacks() {
    let r = pick(&s(&[("color", "#123")]));
    assert_eq!(r.label_fill("#333"), "#123");
    assert_eq!(r.stroke_or("#999"), "#999");
    let q = pick(&s(&[("stroke", "#abc")]));
    assert_eq!(q.label_fill("#333"), "#333");
    assert_eq!(q.stroke_or("#999"), "#abc");
}

#[test]
fn undefined_class_is_ignored_and_no_indexed_edge_style() {
    let defs: StringHashMap<Style> = StringHashMap::new();
    let r = resolve_style(&defs, &["missing".to_string()], &s(&[("fill", "#1")]));
    assert_eq!(r.fill.as_deref(), Some("#1"));
    let e = resolve_edge_style(&s(&[("stroke", "#2")]), None);
    assert_eq!(e.stroke.as_deref(), Some("#2"));
}
