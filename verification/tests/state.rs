use mermaid_svg::state::{collect_member_ids, composites_by_id, CompositeState};

fn comp(id: &str, regions: &[&[&str]]) -> CompositeState {
    CompositeState {
        id: id.to_string(),
        regions: regions
            .iter()
            .map(|r| r.iter().map(|s| s.to_string()).collect())
            .collect(),
    }
}

#[test]
fn members_expand_nested_composites_in_place() {
    let comps = vec![
        comp("A", &[&["x", "B", "w"], &["v"]]),
        comp("B", &[&["y"], &["z", "C"]]),
        comp("C", &[&["q"]]),
    ];
    let by_id = composites_by_id(&comps);
    let mut out: Vec<String> = vec!["first".to_string()];
    collect_member_ids(&comps, 0, &by_id, &mut out);
    assert_eq!(out, vec!["first", "x", "B", "y", "z", "C", "q", "w", "v"]);
    let mut inner: Vec<String> = Vec::new();
    collect_member_ids(&comps, 1, &by_id, &mut inner);
    assert_eq!(inner, vec!["y", "z", "C", "q"]);
}

#[test]
fn later_composite_with_the_same_id_wins() {
    let comps = vec![comp("S", &[&["a"]]), comp("S", &[&["b"]])];
    let by_id = composites_by_id(&comps);
    assert_eq!(by_id.len(), 1);
    assert_eq!(by_id.get("S").copied(), Some(1));
    assert!(by_id.get("T").is_none());
}

#[test]
fn empty_composite_has_no_members() {
    let comps = vec![comp("E", &[])];
    let by_id = composites_by_id(&comps);
    let mut out: Vec<String> = Vec::new();
    collect_member_ids(&comps, 0, &by_id, &mut out);
    assert!(out.is_empty());
}
