use mermaid_svg::sankey::{
    assign_columns, column_depths, column_heights, Alignment, LinkColor, SankeyLink,
};
use vstd::hash_map::StringHashMap;

fn names(v: &[&str]) -> Vec<String> {
    v.iter().map(|s| s.to_string()).collect()
}

fn link(a: &str, b: &str) -> SankeyLink {
    SankeyLink { source: a.to_string(), target: b.to_string() }
}

fn col(m: &StringHashMap<u32>, k: &str) -> u32 {
    *m.get(k).expect("node has a column")
}

#[test]
fn alignment_parse_is_trimmed_and_exact() {
    assert!(Alignment::parse(Some(" left ")) == Alignment::Left);
    assert!(Alignment::parse(Some("right")) == Alignment::Right);
    assert!(Alignment::parse(Some("center")) == Alignment::Center);
    assert!(Alignment::parse(Some("justify")) == Alignment::Justify);
    assert!(Alignment::parse(Some("LEFT")) == Alignment::Justify);
    assert!(Alignment::parse(Some("bogus")) == Alignment::Justify);
    assert!(Alignment::parse(None) == Alignment::Justify);
}

#[test]
fn link_color_parse() {
    assert!(matches!(LinkColor::parse(None), LinkColor::Gradient));
    assert!(matches!(LinkColor::parse(Some("gradient")), LinkColor::Gradient));
    assert!(matches!(LinkColor::parse(Some(" source")), LinkColor::Source));
    assert!(matches!(LinkColor::parse(Some("target ")), LinkColor::Target));
    match LinkColor::parse(Some("  #a1b2c3 ")) {
        LinkColor::Fixed(c) => assert_eq!(c, "#a1b2c3"),
        _ => panic!("expected a literal colour"),
    }
    match LinkColor::parse(Some("Source")) {
        LinkColor::Fixed(c) => assert_eq!(c, "Source"),
        _ => panic!("expected a literal colour"),
    }
}

#[test]
fn depths_and_heights_of_a_chain() {
    let order = names(&["A", "B", "C"]);
    let links = vec![link("A", "B"), link("B", "C")];
    let d = column_depths(&order, &links);
    assert_eq!((col(&d, "A"), col(&d, "B"), col(&d, "C")), (0, 1, 2));
    let h = column_heights(&order, &links);
    assert_eq!((col(&h, "A"), col(&h, "B"), col(&h, "C")), (2, 1, 0));
}

#[test]
fn depth_is_longest_path() {
    // A reaches C directly and through B: the longer route wins.
    let order = names(&["A", "B", "C"]);
    let links = vec![link("A", "C"), link("A", "B"), link("B", "C")];
    let d = column_depths(&order, &links);
    assert_eq!(col(&d, "C"), 2);
}

#[test]
fn undeclared_target_gets_a_depth_but_no_column() {
    let order = names(&["A"]);
    let links = vec![link("A", "Z")];
    let d = column_depths(&order, &links);
    assert_eq!(col(&d, "Z"), 1);
    let c = assign_columns(&order, &links, Alignment::Justify);
    assert_eq!(c.len(), 1);
    assert_eq!(col(&c, "A"), 0);
    assert!(c.get("Z").is_none());
}

#[test]
fn cycle_stops_after_the_pass_limit() {
    let order = names(&["A", "B"]);
    let links = vec![link("A", "B"), link("B", "A")];
    let d = column_depths(&order, &links);
    // Each of the 200 passes raises B then A by two overall.
    assert_eq!(col(&d, "B"), 399);
    assert_eq!(col(&d, "A"), 400);
}

fn graph() -> (Vec<String>, Vec<SankeyLink>) {
    (names(&["X", "A", "B", "C"]), vec![link("A", "B"), link("B", "C"), link("X", "C")])
}

#[test]
fn left_alignment_uses_depth() {
    let (order, links) = graph();
    let c = assign_columns(&order, &links, Alignment::Left);
    assert_eq!(
        (col(&c, "X"), col(&c, "A"), col(&c, "B"), col(&c, "C")),
        (0, 0, 1, 2)
    );
}

#[test]
fn right_alignment_counts_back_from_the_last_column() {
    let (order, links) = graph();
    let c = assign_columns(&order, &links, Alignment::Right);
    assert_eq!(
        (col(&c, "X"), col(&c, "A"), col(&c, "B"), col(&c, "C")),
        (1, 0, 1, 2)
    );
}

#[test]
fn justify_alignment_pushes_sinks_last() {
    let order = names(&["A", "B", "C", "D"]);
    let links = vec![link("A", "B"), link("B", "C"), link("A", "D")];
    let c = assign_columns(&order, &links, Alignment::Justify);
    assert_eq!(
        (col(&c, "A"), col(&c, "B"), col(&c, "C"), col(&c, "D")),
        (0, 1, 2, 2)
    );
    let l = assign_columns(&order, &links, Alignment::Left);
    assert_eq!(col(&l, "D"), 1);
}

#[test]
fn center_alignment_moves_sources_next_to_their_targets() {
    let (order, links) = graph();
    let c = assign_columns(&order, &links, Alignment::Center);
    assert_eq!(
        (col(&c, "X"), col(&c, "A"), col(&c, "B"), col(&c, "C")),
        (1, 0, 1, 2)
    );
}

#[test]
fn isolated_node_sits_first_when_centered_and_last_when_justified() {
    let order = names(&["A", "B", "Q"]);
    let links = vec![link("A", "B")];
    let c = assign_columns(&order, &links, Alignment::Center);
    assert_eq!(col(&c, "Q"), 0);
    let j = assign_columns(&order, &links, Alignment::Justify);
    assert_eq!(col(&j, "Q"), 1);
}

#[test]
fn no_links_puts_everything_in_column_zero() {
    let order = names(&["A", "B"]);
    for a in [Alignment::Left, Alignment::Right, Alignment::Justify, Alignment::Center] {
        let c = assign_columns(&order, &[], a);
        assert_eq!((col(&c, "A"), col(&c, "B")), (0, 0));
    }
}
