use mermaid_svg::timeline::{fill_channels, is_vertical, parse_hex6, wrap_event};

#[test]
fn timeline_wrap_event_breaks_on_words() {
    assert_eq!(wrap_event("Facebook"), vec!["Facebook".to_string()]);
    assert_eq!(
        wrap_event("Decentralized Social Networking"),
        vec!["Decentralized".to_string(), "Social Networking".to_string()]
    );
}

#[test]
fn mod_wrap_event_breaks_on_words() {
    assert_eq!(wrap_event("Facebook"), vec!["Facebook".to_string()]);
    assert_eq!(
        wrap_event("Decentralized Social Networking"),
        vec!["Decentralized".to_string(), "Social Networking".to_string()]
    );
}

#[test]
fn wrap_event_edge_cases() {
    assert_eq!(wrap_event(""), vec![String::new()]);
    assert_eq!(wrap_event("   "), vec![String::new()]);
    assert_eq!(
        wrap_event("Supercalifragilisticexpialidocious x"),
        vec!["Supercalifragilisticexpialidocious".to_string(), "x".to_string()]
    );
    // Exactly 18 characters fit on one line.
    assert_eq!(wrap_event("abcdefgh abcdefghi"), vec!["abcdefgh abcdefghi".to_string()]);
    assert_eq!(
        wrap_event("abcdefgh abcdefghij"),
        vec!["abcdefgh".to_string(), "abcdefghij".to_string()]
    );
}

#[test]
fn vertical_directions() {
    assert!(is_vertical(&Some("TB".to_string())));
    assert!(is_vertical(&Some("TD".to_string())));
    assert!(is_vertical(&Some("BT".to_string())));
    assert!(!is_vertical(&Some("LR".to_string())));
    assert!(!is_vertical(&None));
}

#[test]
fn hex6_parses_channels() {
    assert_eq!(parse_hex6("#B9B9FF"), Some((0xB9, 0xB9, 0xFF)));
    assert_eq!(parse_hex6("#333"), None);
    assert_eq!(parse_hex6("black"), None);
    assert_eq!(parse_hex6("#+F+F+F"), Some((15, 15, 15)));
    assert_eq!(parse_hex6("#GG0000"), None);
}

#[test]
fn fill_channels_default_unparsable_to_255() {
    assert_eq!(fill_channels("#444444"), Some((0x44, 0x44, 0x44)));
    assert_eq!(fill_channels("#44zz44"), Some((0x44, 255, 0x44)));
    assert_eq!(fill_channels("#444"), None);
}

#[test]
fn wrapping_keeps_every_word_in_order() {
    let text = "  Decentralized   social networks\tgrow past  every expectation  ";
    let lines = wrap_event(text);
    assert!(lines.len() > 1);
    let words: Vec<&str> = text.split_whitespace().collect();
    assert_eq!(lines.join(" "), words.join(" "));
}
