use mermaid_svg::error::{ParseError, RenderError};
use mermaid_svg::journey::{collect_actors, JourneySection, JourneyTask};
use mermaid_svg::kanban::priority_color;
use mermaid_svg::pie::{label_len, truncate, LegendPos};
use mermaid_svg::requirement::{angle_wrap, requirement_title, title_value, RequirementKind};
use mermaid_svg::sequence::{bump, label_lines, stroke_for, ArrowKind, Glyph, ParticipantKind};
use mermaid_svg::color::format_hex_color;

#[test]
fn legend_positions() {
    assert!(LegendPos::parse(Some(" Left ")) == LegendPos::Left);
    assert!(LegendPos::parse(Some("TOP")) == LegendPos::Top);
    assert!(LegendPos::parse(Some("bottom")) == LegendPos::Bottom);
    assert!(LegendPos::parse(Some("middle")) == LegendPos::Right);
    assert!(LegendPos::parse(None) == LegendPos::Right);
}

#[test]
fn pie_label_truncation() {
    assert_eq!(label_len("héllo"), 5);
    assert_eq!(truncate("short", 10), "short");
    assert_eq!(truncate("abcdefgh", 5), "abcd…");
    assert_eq!(truncate("abc", 0), "…");
}

#[test]
fn kanban_priority_colors() {
    assert_eq!(priority_color(Some("Very High")), Some("#ff0000"));
    assert_eq!(priority_color(Some(" high ")), Some("#ff8800"));
    assert_eq!(priority_color(Some("LOW")), Some("#00b0f0"));
    assert_eq!(priority_color(Some("very low")), Some("#8fd6ff"));
    assert_eq!(priority_color(Some("medium")), None);
    assert_eq!(priority_color(None), None);
}

#[test]
fn requirement_headers() {
    assert_eq!(requirement_title(RequirementKind::Functional), "Functional Requirement");
    assert_eq!(requirement_title(RequirementKind::DesignConstraint), "Design Constraint");
    assert_eq!(angle_wrap("Requirement"), "#lt;#lt;Requirement#gt;#gt;");
    assert_eq!(title_value("high"), "High");
    assert_eq!(title_value("test"), "Test");
    assert_eq!(title_value(""), "");
    assert_eq!(title_value("ßx"), "SSx");
}

#[test]
fn arrow_strokes() {
    assert_eq!(stroke_for(ArrowKind::Solid), ("", None, None));
    assert_eq!(stroke_for(ArrowKind::DashedArrow), ("6 4", None, Some("arrow-filled")));
    assert_eq!(
        stroke_for(ArrowKind::BiSolidArrow),
        ("", Some("arrow-filled"), Some("arrow-filled"))
    );
    assert_eq!(
        stroke_for(ArrowKind::DashedHalfArrowStartBottom),
        ("6 4", Some("arrow-half-bottom"), None)
    );
}

#[test]
fn participant_glyphs() {
    assert!(Glyph::from_kind(ParticipantKind::Database) == Some(Glyph::Database));
    assert!(Glyph::from_kind(ParticipantKind::Boundary) == Some(Glyph::Boundary));
    assert!(Glyph::from_kind(ParticipantKind::Actor).is_none());
    assert!(Glyph::from_kind(ParticipantKind::Participant).is_none());
}

#[test]
fn participant_label_lines() {
    assert_eq!(label_lines("a<br/>b<br />c<br>d\\ne"), vec!["a", "b", "c", "d", "e"]);
    assert_eq!(label_lines("  solo  "), vec!["solo"]);
    assert_eq!(label_lines(""), vec![""]);
}

#[test]
fn autonumber_bump() {
    let mut stack = vec![1, 2];
    assert_eq!(bump(&mut stack), "1.3");
    assert_eq!(stack, vec![1, 3]);
    let mut empty: Vec<u32> = vec![];
    assert_eq!(bump(&mut empty), "");
    let mut one = vec![9];
    assert_eq!(bump(&mut one), "10");
}

#[test]
fn journey_actors_sorted_unique() {
    let sections = vec![
        JourneySection {
            tasks: vec![
                JourneyTask { actors: vec!["Me".to_string(), "Cat".to_string()] },
                JourneyTask { actors: vec!["Me".to_string()] },
            ],
        },
        JourneySection {
            tasks: vec![JourneyTask { actors: vec!["Alice".to_string(), "Cat".to_string()] }],
        },
    ];
    assert_eq!(collect_actors(&sections), vec!["Alice", "Cat", "Me"]);
    assert_eq!(collect_actors(&[]), Vec::<String>::new());
}

#[test]
fn render_error_message() {
    let e: RenderError = ParseError { message: "bad".to_string() }.into();
    assert_eq!(e.message(), "parse error: bad");
}

#[test]
fn hex_color_formatting() {
    assert_eq!(format_hex_color(0x86, 0x86, 0xFF, true), "#8686FF");
    assert_eq!(format_hex_color(0xb9, 0xb9, 0xff, false), "#b9b9ff");
    assert_eq!(format_hex_color(0, 10, 255, false), "#000aff");
}
