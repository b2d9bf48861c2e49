use mermaid_svg::theme::{sets_palette_vars, theme_from_meta, theme_variables, Theme, ThemeMeta};
use vstd::hash_map::StringHashMap;

fn vars(pairs: &[(&str, &str)]) -> StringHashMap<String> {
    let mut m = StringHashMap::new();
    for (k, v) in pairs {
        m.insert(k.to_string(), v.to_string());
    }
    m
}

fn check_base_theme_differs_from_default() {
    assert_eq!(Theme::default_theme().flow_node_fill, "#ECECFF");
    assert_eq!(Theme::base().flow_node_fill, "#fff4dd");
    assert_eq!(Theme::by_name("base").unwrap().actor_fill, "#fff4dd");
}

fn check_text_color_helpers_fall_back() {
    let t = Theme::default_theme();
    assert_eq!(t.actor_text(), t.fg);
    assert_eq!(t.signal_text(), t.fg);
    assert_eq!(t.title(), t.fg);
    assert_eq!(t.commit_label(), t.fg_muted);
    assert_eq!(t.tag_label(), t.fg);
    assert_eq!(t.pie_stroke(), "#fff");
}

fn check_theme_variables_recolor_base() {
    let mut t = Theme::default_theme();
    t.apply_theme_variables(&vars(&[
        ("primaryColor", "#ff0000"),
        ("lineColor", "#00ff00"),
        ("fontFamily", "Courier"),
        ("fontSize", "20px"),
    ]));
    assert_eq!(t.flow_node_fill, "#ff0000");
    assert_eq!(t.actor_fill, "#ff0000");
    assert_eq!(t.flow_edge_stroke, "#00ff00");
    assert_eq!(t.arrow_stroke, "#00ff00");
    assert_eq!(t.font_family, "Courier");
    // `fontSize` is read by the caller, which keeps the numeric font size.
}

fn check_quadrant_fill_variables_override_palette() {
    let mut t = Theme::default_theme();
    assert_eq!(t.quadrant_fill(1, 1), t.pie_color(1));
    t.apply_theme_variables(&vars(&[("quadrant1Fill", "#ff0000"), ("quadrant3Fill", "#00ff00")]));
    assert_eq!(t.quadrant_fill(1, 1), "#ff0000");
    assert_eq!(t.quadrant_fill(3, 2), "#00ff00");
    assert_eq!(t.quadrant_fill(2, 0), t.pie_color(0));
}

fn check_unknown_variables_ignored() {
    let mut t = Theme::default_theme();
    t.apply_theme_variables(&vars(&[("nonsense", "x")]));
    assert_eq!(t.flow_node_fill, "#ECECFF");
}

fn check_pie_variables_override_palette_slots() {
    let mut t = Theme::default_theme();
    t.apply_theme_variables(&vars(&[("pie1", "#111111"), ("pie3", "#333333")]));
    assert_eq!(t.pie_color(0), "#111111");
    assert_eq!(t.pie_color(2), "#333333");
    assert_eq!(t.pie_color(1), "#91CC75");
}

fn check_pie_variable_grows_palette_beyond_default_len() {
    let mut t = Theme::default_theme();
    t.apply_theme_variables(&vars(&[("pie12", "#abcdef")]));
    assert_eq!(t.pie_color(11), "#abcdef");
    assert_eq!(t.pie_color(10), "#5470C6");
}

fn check_git_variables_override_lane_palette() {
    let mut t = Theme::default_theme();
    t.apply_theme_variables(&vars(&[
        ("git0", "#0a0a0a"),
        ("commitLabelColor", "#c0ffee"),
        ("tagLabelColor", "#facade"),
    ]));
    assert_eq!(t.pie_color(0), "#0a0a0a");
    assert_eq!(t.commit_label(), "#c0ffee");
    assert_eq!(t.tag_label(), "#facade");
}

fn check_sequence_and_pie_text_variables() {
    let mut t = Theme::default_theme();
    t.apply_theme_variables(&vars(&[
        ("actorTextColor", "#a11"),
        ("signalTextColor", "#5163"),
        ("actorBkg", "#eee"),
        ("pieStrokeColor", "#000"),
        ("pieOpacity", "0.7"),
    ]));
    assert_eq!(t.actor_text(), "#a11");
    assert_eq!(t.signal_text(), "#5163");
    assert_eq!(t.actor_fill, "#eee");
    assert_eq!(t.pie_stroke(), "#000");
    assert_eq!(t.pie_opacity.as_deref(), Some("0.7"));
}

#[test]
fn by_name_covers_the_builtins() {
    assert_eq!(Theme::by_name("dark").unwrap().bg, "#1E1E1E");
    assert_eq!(Theme::by_name("forest").unwrap().fg, "#1E3A1E");
    assert_eq!(Theme::by_name("neutral").unwrap().pie_color(0), "#444");
    assert_eq!(Theme::by_name("default").unwrap().fg, "#333");
    assert!(Theme::by_name("Dark").is_none());
}

#[test]
fn later_variables_win_over_general_ones() {
    let mut t = Theme::default_theme();
    t.apply_theme_variables(&vars(&[
        ("primaryTextColor", "#111"),
        ("textColor", "#222"),
        ("lineColor", "#333"),
        ("signalColor", "#444"),
        ("pie1", "#a"),
        ("git0", "#b"),
        ("cScale0", "#c"),
        ("mainBkg", "#m"),
    ]));
    assert_eq!(t.fg, "#222");
    assert_eq!(t.arrow_stroke, "#444");
    assert_eq!(t.flow_edge_stroke, "#333");
    assert_eq!(t.pie_color(0), "#c");
    assert_eq!(t.flow_node_fill, "#m");
}

#[test]
fn with_font_and_default() {
    let t = Theme::default().with_font("Inter".to_string());
    assert_eq!(t.font_family, "Inter");
    assert!(t.responsive);
    assert_eq!(t.pie_color(12), "#FAC858");
}

#[test]
fn theme_variables_later_entry_wins() {
    let pairs = vec![
        ("primaryColor".to_string(), "#111111".to_string()),
        ("lineColor".to_string(), "#222222".to_string()),
        ("primaryColor".to_string(), "#333333".to_string()),
    ];
    let m = theme_variables(&pairs);
    assert_eq!(m.len(), 2);
    assert_eq!(m.get("primaryColor").map(|s| s.as_str()), Some("#333333"));
    assert_eq!(m.get("lineColor").map(|s| s.as_str()), Some("#222222"));
    assert!(m.get("textColor").is_none());
}

fn meta(theme: Option<&str>, pairs: &[(&str, &str)], family: Option<&str>, width: Option<bool>) -> ThemeMeta {
    let owned: Vec<(String, String)> =
        pairs.iter().map(|(k, v)| (k.to_string(), v.to_string())).collect();
    ThemeMeta {
        theme: theme.map(|s| s.to_string()),
        theme_variables: theme_variables(&owned),
        font_family: family.map(|s| s.to_string()),
        use_max_width: width,
    }
}

#[test]
fn preamble_theme_overrides_caller() {
    let caller = Theme::dark();
    let t = theme_from_meta(&caller, &meta(Some("forest"), &[], None, None));
    assert_eq!(t.fg, Theme::forest().fg);
    assert_eq!(t.pie_palette, Theme::forest().pie_palette);
    let kept = theme_from_meta(&caller, &meta(Some("nope"), &[], None, None));
    assert_eq!(kept.bg, caller.bg);
    let none = theme_from_meta(&caller, &meta(None, &[], None, None));
    assert_eq!(none.fg, caller.fg);
    assert_eq!(none.pie_palette, caller.pie_palette);
}

#[test]
fn preamble_variables_font_and_width_layer_on_top() {
    let caller = Theme::default_theme();
    let t = theme_from_meta(
        &caller,
        &meta(Some("neutral"), &[("fontFamily", "serif"), ("lineColor", "#123456")], Some("monospace"), Some(false)),
    );
    assert_eq!(t.font_family, "monospace");
    assert!(!t.responsive);
    assert_eq!(t.arrow_stroke, "#123456");
    let v = theme_from_meta(&caller, &meta(None, &[("fontFamily", "serif")], None, None));
    assert_eq!(v.font_family, "serif");
    assert_eq!(v.responsive, caller.responsive);
}

#[test]
fn duplicate_keeps_every_color() {
    let t = Theme::forest();
    let d = t.duplicate();
    assert_eq!(d.fg, t.fg);
    assert_eq!(d.pie_palette, t.pie_palette);
    assert_eq!(d.quadrant_fills, t.quadrant_fills);
    assert_eq!(d.font_family, t.font_family);
}

#[test]
fn theme_base_theme_differs_from_default() {
    check_base_theme_differs_from_default();
}

#[test]
fn mod_base_theme_differs_from_default() {
    check_base_theme_differs_from_default();
}

#[test]
fn theme_text_color_helpers_fall_back() {
    check_text_color_helpers_fall_back();
}

#[test]
fn mod_text_color_helpers_fall_back() {
    check_text_color_helpers_fall_back();
}

#[test]
fn theme_theme_variables_recolor_base() {
    check_theme_variables_recolor_base();
}

#[test]
fn variables_theme_variables_recolor_base() {
    check_theme_variables_recolor_base();
}

#[test]
fn theme_quadrant_fill_variables_override_palette() {
    check_quadrant_fill_variables_override_palette();
}

#[test]
fn variables_quadrant_fill_variables_override_palette() {
    check_quadrant_fill_variables_override_palette();
}

#[test]
fn theme_unknown_variables_ignored() {
    check_unknown_variables_ignored();
}

#[test]
fn variables_unknown_variables_ignored() {
    check_unknown_variables_ignored();
}

#[test]
fn theme_pie_variables_override_palette_slots() {
    check_pie_variables_override_palette_slots();
}

#[test]
fn variables_pie_variables_override_palette_slots() {
    check_pie_variables_override_palette_slots();
}

#[test]
fn theme_pie_variable_grows_palette_beyond_default_len() {
    check_pie_variable_grows_palette_beyond_default_len();
}

#[test]
fn variables_pie_variable_grows_palette_beyond_default_len() {
    check_pie_variable_grows_palette_beyond_default_len();
}

#[test]
fn theme_git_variables_override_lane_palette() {
    check_git_variables_override_lane_palette();
}

#[test]
fn variables_git_variables_override_lane_palette() {
    check_git_variables_override_lane_palette();
}

#[test]
fn theme_sequence_and_pie_text_variables() {
    check_sequence_and_pie_text_variables();
}

#[test]
fn variables_sequence_and_pie_text_variables() {
    check_sequence_and_pie_text_variables();
}

#[test]
fn empty_palette_takes_non_palette_variables() {
    let mut t = Theme::default_theme();
    t.pie_palette = Vec::new();
    let v = vars(&[("primaryColor", "#ff0000"), ("quadrant1Fill", "#00ff00"), ("fontFamily", "serif")]);
    assert!(!sets_palette_vars(&v));
    t.apply_theme_variables(&v);
    assert_eq!(t.flow_node_fill, "#ff0000");
    assert_eq!(t.font_family, "serif");
    assert!(t.pie_palette.is_empty());
    // An overridden quadrant never reads the (empty) palette.
    assert_eq!(t.quadrant_fill(1, 3), "#00ff00");
}

#[test]
fn palette_slot_variables_are_recognised() {
    assert!(sets_palette_vars(&vars(&[("pie12", "#111")])));
    assert!(sets_palette_vars(&vars(&[("git7", "#111")])));
    assert!(sets_palette_vars(&vars(&[("cScale0", "#111")])));
    assert!(!sets_palette_vars(&vars(&[("pie13", "#111"), ("git8", "#1"), ("cScale12", "#1"), ("pie0", "#1")])));
    assert!(!sets_palette_vars(&vars(&[])));
}
