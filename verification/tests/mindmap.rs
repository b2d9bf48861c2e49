use mermaid_svg::mindmap::{icon_name, leaves, parse_hex, MindmapNode};

fn node(children: Vec<MindmapNode>) -> MindmapNode {
    MindmapNode {
        text: "n".to_string(),
        icon: None,
        children,
    }
}

#[test]
fn mindmap_icon_name_extraction() {
    assert_eq!(icon_name("fa fa-book"), "book");
    assert_eq!(icon_name("fab fa-github"), "github");
    assert_eq!(icon_name("book"), "book");
    assert_eq!(icon_name(""), "");
}

#[test]
fn tests_icon_name_extraction() {
    assert_eq!(icon_name("fa fa-book"), "book");
    assert_eq!(icon_name("fab fa-github"), "github");
    assert_eq!(icon_name("book"), "book");
    assert_eq!(icon_name(""), "");
}

#[test]
fn icon_name_prefers_last_fa_word() {
    assert_eq!(icon_name("fa-a b fa-c d"), "c");
    assert_eq!(icon_name("  x  y "), "y");
}

#[test]
fn counts_leaves() {
    assert_eq!(leaves(&node(vec![])), 1);
    let t = node(vec![node(vec![]), node(vec![node(vec![]), node(vec![])])]);
    assert_eq!(leaves(&t), 3);
}

#[test]
fn mindmap_hex_parsing() {
    assert_eq!(parse_hex(" #fff "), Some((255, 255, 255)));
    assert_eq!(parse_hex("#B9B9FF"), Some((0xB9, 0xB9, 0xFF)));
    assert_eq!(parse_hex("#000000"), Some((0, 0, 0)));
    assert_eq!(parse_hex("red"), None);
}
