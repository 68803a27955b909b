use tui_markup_renderer::text::{parse_i32, parse_u16, split_char, trim};

#[test]
fn trim_removes_outer_white_space() {
    assert_eq!(trim("  a b \n"), "a b");
    assert_eq!(trim("\u{3000}x\u{85}"), "x");
    assert_eq!(trim("   "), "");
}

#[test]
fn split_keeps_empty_pieces() {
    assert_eq!(split_char("a||b", '|'), vec!["a", "", "b"]);
    assert_eq!(split_char("", '|'), vec![""]);
}

#[test]
fn numbers_are_read_as_decimal() {
    assert_eq!(parse_u16("+12"), Some(12));
    assert_eq!(parse_u16("65536"), None);
    assert_eq!(parse_u16(""), None);
    assert_eq!(parse_i32("-2147483648"), Some(i32::MIN));
    assert_eq!(parse_i32("-"), None);
}
