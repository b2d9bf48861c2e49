use mermaid_svg::label::decode_label;

#[test]
fn decodes_entity_codes() {
    assert_eq!(decode_label("a #quot;b#quot; c"), "a \"b\" c");
    assert_eq!(decode_label("#35; hash"), "# hash");
    assert_eq!(decode_label("#9829; and #x2665;"), "♥ and ♥");
    assert_eq!(decode_label("a #lt; b #gt; c"), "a < b > c");
    // Not an entity: left untouched.
    assert_eq!(decode_label("C#Sharp"), "C#Sharp");
    assert_eq!(decode_label("#notclosed"), "#notclosed");
}

#[test]
fn strips_math_fences() {
    assert_eq!(decode_label("$$x^2$$"), "x^2");
    assert_eq!(decode_label("a $$x + y$$ b"), "a x + y b");
    // A lone/unmatched `$$` is left untouched, as is bare currency.
    assert_eq!(decode_label("cost is $$"), "cost is $$");
    assert_eq!(decode_label("$5 and $10"), "$5 and $10");
}

#[test]
fn leaves_markdown_and_backticks_to_the_span_layer() {
    assert_eq!(decode_label("snake_case"), "snake_case");
    assert_eq!(decode_label("a * b"), "a * b");
}

#[test]
fn named_entities_all_decode() {
    assert_eq!(
        decode_label("#quot;#amp;#lt;#gt;#apos;#nbsp;#hearts;#colon;#semi;"),
        "\"&<>'\u{a0}♥:;"
    );
}

#[test]
fn numeric_entity_edge_cases() {
    // Upper-case hex marker and a leading `+` are accepted by the radix parse.
    assert_eq!(decode_label("#X41;"), "A");
    assert_eq!(decode_label("#x+41;"), "A");
    // Surrogates and out-of-range scalars are not characters.
    assert_eq!(decode_label("#xD800;"), "#xD800;");
    assert_eq!(decode_label("#x110000;"), "#x110000;");
    // Overflowing u32 and over-long tokens are left alone.
    assert_eq!(decode_label("#4294967296;"), "#4294967296;");
    assert_eq!(decode_label("#00000000065;"), "#00000000065;");
    assert_eq!(decode_label("#0000000065;"), "A");
    // Empty token.
    assert_eq!(decode_label("#;"), "#;");
}

#[test]
fn math_fence_inner_is_trimmed_and_repeated() {
    assert_eq!(decode_label("$$ a $$ and $$ b $$"), "a and b");
    assert_eq!(decode_label("$$a$$ $$"), "a $$");
}

#[test]
fn math_then_entity_order() {
    // Math is unwrapped first, then entities inside it decode.
    assert_eq!(decode_label("$$#35;$$"), "#");
}

#[test]
fn plain_label_unchanged() {
    assert_eq!(decode_label("hello world"), "hello world");
    assert_eq!(decode_label(""), "");
}
