use mermaid_svg::events::{collect_ids, number_calls, pair_blocks, BlockKind, EventKind};

fn msg(a: &str, b: &str) -> EventKind {
    EventKind::Message { from: a.to_string(), to: b.to_string() }
}

fn open() -> EventKind {
    EventKind::BlockOpen { kind: BlockKind::Alt, label: String::new() }
}

#[test]
fn collect_ids_per_event() {
    let mut out: Vec<String> = vec!["Z".to_string()];
    collect_ids(&msg("A", "B"), &mut out);
    collect_ids(
        &EventKind::Note { participants: vec!["C".to_string(), "D".to_string()] },
        &mut out,
    );
    collect_ids(&EventKind::Activate("E".to_string()), &mut out);
    collect_ids(&EventKind::Deactivate("F".to_string()), &mut out);
    collect_ids(&EventKind::Create("G".to_string()), &mut out);
    collect_ids(&EventKind::Destroy("H".to_string()), &mut out);
    collect_ids(&open(), &mut out);
    collect_ids(&EventKind::BlockBranch { label: "x".to_string() }, &mut out);
    collect_ids(&EventKind::BlockClose, &mut out);
    collect_ids(&EventKind::RectOpen { color: Some("red".to_string()) }, &mut out);
    collect_ids(&EventKind::RectClose, &mut out);
    assert_eq!(out, vec!["Z", "A", "B", "C", "D", "E", "F", "G", "H"]);
}

#[test]
fn nested_blocks_pair_up() {
    let ev = vec![
        open(),
        msg("A", "B"),
        open(),
        EventKind::BlockClose,
        EventKind::BlockClose,
        EventKind::BlockClose,
        open(),
    ];
    let p = pair_blocks(&ev);
    assert_eq!(p, vec![Some(4), None, Some(3), None, None, None, None]);
}

#[test]
fn zenuml_outline_numbers() {
    let ev = vec![
        msg("A", "B"),
        EventKind::Activate("B".to_string()),
        msg("B", "C"),
        EventKind::Activate("C".to_string()),
        msg("C", "D"),
        EventKind::Activate("D".to_string()),
        msg("D", "C"),
        EventKind::Deactivate("D".to_string()),
        open(),
        msg("C", "E"),
        EventKind::BlockBranch { label: "else".to_string() },
        msg("C", "F"),
        EventKind::BlockClose,
        EventKind::Deactivate("C".to_string()),
        msg("B", "A"),
    ];
    let n = number_calls(&ev);
    let got: Vec<(usize, String)> = n
        .iter()
        .enumerate()
        .filter_map(|(i, s)| s.clone().map(|s| (i, s)))
        .collect();
    let want: Vec<(usize, String)> = vec![
        (0, "1"),
        (2, "1.1"),
        (4, "1.1.1"),
        (6, "1.1.1.1"),
        (9, "1.1.2.1"),
        (11, "1.1.2.2"),
        (14, "1.2"),
    ]
    .into_iter()
    .map(|(i, s)| (i, s.to_string()))
    .collect();
    assert_eq!(got, want);
}

#[test]
fn reply_after_deactivation_is_the_last_child() {
    let ev = vec![
        msg("A", "B"),
        EventKind::Activate("B".to_string()),
        msg("B", "C"),
        EventKind::Deactivate("B".to_string()),
        msg("B", "A"),
        msg("A", "C"),
    ];
    let n = number_calls(&ev);
    assert_eq!(
        n,
        vec![
            Some("1".to_string()),
            None,
            Some("1.1".to_string()),
            None,
            Some("1.2".to_string()),
            Some("2".to_string()),
        ]
    );
}

#[test]
fn deactivation_at_top_level_changes_nothing() {
    let ev = vec![EventKind::Deactivate("A".to_string()), msg("A", "B"), EventKind::BlockClose, msg("B", "A")];
    let n = number_calls(&ev);
    assert_eq!(n, vec![None, Some("1".to_string()), None, Some("2".to_string())]);
}
