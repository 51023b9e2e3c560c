use transit_rust::text::{i64_to_string, pad_label, pad_tta, str_lt, take_chars};

#[test]
fn decimal_rendering() {
    assert_eq!(i64_to_string(0), "0");
    assert_eq!(i64_to_string(7), "7");
    assert_eq!(i64_to_string(42), "42");
    assert_eq!(i64_to_string(999), "999");
    assert_eq!(i64_to_string(-1), "-1");
    assert_eq!(i64_to_string(-12), "-12");
    assert_eq!(i64_to_string(1000000), "1000000");
}

#[test]
fn labels_pad_to_exactly_four() {
    assert_eq!(pad_label("5"), "5   ");
    assert_eq!(pad_label("14R"), "14R ");
    assert_eq!(pad_label("FOUR"), "FOUR");
    assert_eq!(pad_label("LONGROUTE"), "LONG");
    assert_eq!(pad_label(""), "    ");
}

#[test]
fn minutes_cells_pad_to_exactly_two() {
    assert_eq!(pad_tta("2"), " 2");
    assert_eq!(pad_tta("42"), "42");
    assert_eq!(pad_tta("999"), "99");
    assert_eq!(pad_tta("-5"), "-5");
    assert_eq!(pad_tta("-12"), "-1");
    assert_eq!(pad_tta(""), "  ");
}

#[test]
fn take_chars_truncates() {
    assert_eq!(take_chars("hello", 2), "he");
    assert_eq!(take_chars("hi", 10), "hi");
    assert_eq!(take_chars("", 3), "");
}

#[test]
fn lexicographic_comparison() {
    assert!(str_lt("A", "B"));
    assert!(!str_lt("B", "A"));
    assert!(!str_lt("A", "A"));
    // digit strings compare by characters, not numerically
    assert!(str_lt("10", "9"));
    assert!(str_lt("14 - Y", "9 - X"));
    assert!(str_lt("", "A"));
    assert!(!str_lt("AB", "A"));
    assert!(str_lt("A", "AB"));
}
