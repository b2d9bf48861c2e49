use mermaid_svg::treemap::{group_thousands, order_by_value, parse_hex, total_order_key, ValueFormat};

fn key(v: f64) -> u64 {
    total_order_key(v.to_bits())
}

#[test]
fn treemap_orders_siblings_by_value_desc() {
    // Source order Hot(60) then Cold(65); sorted rank puts Cold first.
    assert_eq!(order_by_value(&[key(60.0), key(65.0)]), vec![1, 0]);
}

#[test]
fn tests_orders_siblings_by_value_desc() {
    assert_eq!(order_by_value(&[key(60.0), key(65.0)]), vec![1, 0]);
}

#[test]
fn ties_keep_source_order_and_negatives_sort_last() {
    assert_eq!(
        order_by_value(&[key(1.0), key(5.0), key(1.0), key(-2.0), key(5.0)]),
        vec![1, 4, 0, 2, 3]
    );
    assert_eq!(order_by_value(&[]), Vec::<usize>::new());
}

#[test]
fn total_key_orders_like_total_cmp() {
    let vals = [-f64::INFINITY, -3.5, -0.0, 0.0, 1e-300, 2.0, f64::INFINITY];
    for w in vals.windows(2) {
        assert!(key(w[0]) < key(w[1]), "{} < {}", w[0], w[1]);
    }
}

#[test]
fn groups_thousands() {
    assert_eq!(group_thousands("1234"), "1,234");
    assert_eq!(group_thousands("1234567.891"), "1,234,567.891");
    assert_eq!(group_thousands("-1000"), "-1,000");
    assert_eq!(group_thousands("999"), "999");
    assert_eq!(group_thousands(""), "");
}

#[test]
fn parses_short_and_long_hex() {
    assert_eq!(parse_hex("#abc"), Some((0xaa, 0xbb, 0xcc)));
    assert_eq!(parse_hex("#101010"), Some((16, 16, 16)));
    assert_eq!(parse_hex("url(#g)"), None);
    assert_eq!(parse_hex("#+bc"), None);
}

#[test]
fn value_format_defaults_to_grouping() {
    let f = ValueFormat::parse(None);
    assert!(f == ValueFormat { currency: false, percent: false, thousands: true, decimals: None });
    assert_eq!(f.decorate("1234567.5"), "1,234,567.5");
}

#[test]
fn value_format_reads_currency_decimals_and_percent() {
    let f = ValueFormat::parse(Some("$,.2f"));
    assert!(f == ValueFormat { currency: true, percent: false, thousands: true, decimals: Some(2) });
    assert_eq!(f.decorate("1234.50"), "$1,234.50");
    let p = ValueFormat::parse(Some(".1%"));
    assert!(p == ValueFormat { currency: false, percent: true, thousands: false, decimals: Some(1) });
    assert_eq!(p.decorate("12.5"), "12.5%");
}

#[test]
fn value_format_decimals_edge_cases() {
    // A `.` with no digits, or digits that overflow, reads as zero places.
    assert_eq!(ValueFormat::parse(Some(".")).decimals, Some(0));
    assert_eq!(ValueFormat::parse(Some(".x3")).decimals, Some(0));
    assert_eq!(ValueFormat::parse(Some(".99999999999999999999999")).decimals, Some(0));
    // Only the first `.` counts.
    assert_eq!(ValueFormat::parse(Some("a.12.7")).decimals, Some(12));
    assert_eq!(ValueFormat::parse(Some("")).decimals, None);
    assert!(!ValueFormat::parse(Some("")).thousands);
}

/// A value printed through a format: the number body rounded as the format
/// says (two places, trailing zeros dropped, when it names none), then
/// decorated.
fn format_value(v: f64, fmt: Option<&str>) -> String {
    let f = ValueFormat::parse(fmt);
    let val = if f.percent { v * 100.0 } else { v };
    let body = match f.decimals {
        Some(d) => format!("{val:.d$}"),
        None => {
            let s = format!("{val:.2}");
            s.trim_end_matches('0').trim_end_matches('.').to_string()
        }
    };
    f.decorate(&body)
}

fn check_value_format_subset() {
    assert_eq!(format_value(1234.0, Some("$0,0")), "$1,234");
    assert_eq!(format_value(1234.567, Some(",.2f")), "1,234.57");
    assert_eq!(format_value(0.42, Some(".1%")), "42.0%");
    assert_eq!(format_value(0.42, Some("%")), "42%");
    assert_eq!(format_value(1000.0, Some("$,.2f")), "$1,000.00");
    assert_eq!(format_value(-1234.0, Some(",")), "-1,234");
    assert_eq!(format_value(12.0, None), "12");
    assert_eq!(format_value(1234567.0, None), "1,234,567");
}

#[test]
fn treemap_value_format_subset() {
    check_value_format_subset();
}

#[test]
fn tests_value_format_subset() {
    check_value_format_subset();
}
