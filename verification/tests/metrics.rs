use mermaid_svg::metrics::{char_width_units, text_units};

#[test]
fn wide_glyphs_count_two_units() {
    assert_eq!(char_width_units('a'), 1);
    assert_eq!(char_width_units('中'), 2);
    assert_eq!(char_width_units('한'), 2);
    assert_eq!(char_width_units('ア'), 2);
    assert_eq!(char_width_units('Ａ'), 2);
    assert_eq!(char_width_units('😀'), 2);
    assert_eq!(char_width_units('é'), 1);
    // Range edges.
    assert_eq!(char_width_units('\u{1100}'), 2);
    assert_eq!(char_width_units('\u{115F}'), 2);
    assert_eq!(char_width_units('\u{1160}'), 1);
    assert_eq!(char_width_units('\u{FF60}'), 2);
    assert_eq!(char_width_units('\u{FF61}'), 1);
}

/// Width at the base font size: units times the per-glyph width.
fn base_width(s: &str, base_char_w: f64) -> f64 {
    text_units(s) as f64 * base_char_w
}

#[test]
fn cjk_glyphs_count_double() {
    assert_eq!(base_width("中文", 7.5), 4.0 * 7.5);
    assert_eq!(base_width("ab中文", 7.5), 6.0 * 7.5);
    assert_eq!(base_width("hello", 7.5), 5.0 * 7.5);
}

#[test]
fn empty_text_has_no_units() {
    assert_eq!(text_units(""), 0);
}
