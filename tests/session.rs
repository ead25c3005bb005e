use mdedit::session::{
    fields, parse_u16, parse_u32, parse_usize, split_cursor, split_offset, split_selected,
    split_tab, split_widths, trim,
};

#[test]
fn numbers_parse_like_std() {
    assert_eq!(parse_usize("0"), Some(0));
    assert_eq!(parse_usize("+42"), Some(42));
    assert_eq!(parse_usize("18446744073709551615"), Some(usize::MAX));
    assert_eq!(parse_usize("18446744073709551616"), None);
    assert_eq!(parse_usize(""), None);
    assert_eq!(parse_usize("+"), None);
    assert_eq!(parse_usize("-1"), None);
    assert_eq!(parse_usize("1 "), None);
    assert_eq!(parse_u32("4294967295"), Some(u32::MAX));
    assert_eq!(parse_u32("4294967296"), None);
    assert_eq!(parse_u16("65535"), Some(65535));
    assert_eq!(parse_u16("65536"), None);
}

#[test]
fn fields_split_like_std() {
    assert_eq!(fields("a.b.c", '.'), vec!["a", "b", "c"]);
    assert_eq!(fields("", '.'), vec![""]);
    assert_eq!(fields(".x.", '.'), vec!["", "x", ""]);
    assert_eq!(fields("no sep", ','), vec!["no sep"]);
}

#[test]
fn trim_drops_white_space() {
    assert_eq!(trim("  a b \t\n"), "a b");
    assert_eq!(trim("   "), "");
    assert_eq!(trim(""), "");
    assert_eq!(trim("\u{3000}x\u{a0}"), "x");
    assert_eq!(trim("x"), "x");
}

#[test]
fn tab_keys() {
    assert_eq!(split_tab("file.1.2"), Some((1, 2)));
    assert_eq!(split_tab("cursor.0.10.extra"), Some((0, 10)));
    assert_eq!(split_tab("file.1"), None);
    assert_eq!(split_tab("file.x.2"), None);
    assert_eq!(split_tab("file. 1.2"), None);
}

#[test]
fn cursor_and_offset_values() {
    assert_eq!(split_cursor("3, 17"), Some((3, 17)));
    assert_eq!(split_cursor("3"), None);
    assert_eq!(split_cursor("3,a"), None);
    assert_eq!(split_offset("0,12, 4"), Some((0, 12, 4)));
    assert_eq!(split_offset("0,12"), None);
}

#[test]
fn selected_value() {
    assert_eq!(split_selected("1.0"), Some((1, 0)));
    assert_eq!(split_selected("1"), None);
    assert_eq!(split_selected("1. 0"), None);
}

#[test]
fn width_values() {
    assert_eq!(split_widths("40, 60,20"), Some(vec![40, 60, 20]));
    assert_eq!(split_widths("40,,20"), None);
    assert_eq!(split_widths("70000"), None);
}
