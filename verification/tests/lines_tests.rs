use translator_core::get_path;
use translator_core::lines::{find_sep, format_line, split_line, trim_str};

#[test]
fn trim_removes_surrounding_whitespace() {
    assert_eq!(trim_str("  12 \t"), "12");
    assert_eq!(trim_str("\r\nx y\n"), "x y");
    assert_eq!(trim_str(""), "");
    assert_eq!(trim_str(" \t\r\n"), "");
    assert_eq!(trim_str("abc"), "abc");
}

#[test]
fn find_sep_first_occurrence() {
    assert_eq!(find_sep("12:::text"), Some(2));
    assert_eq!(find_sep(":::"), Some(0));
    assert_eq!(find_sep("a::b"), None);
    assert_eq!(find_sep(""), None);
    assert_eq!(find_sep("a:::b:::c"), Some(1));
    // four colons: the first window of three wins
    assert_eq!(find_sep("a::::b"), Some(1));
}

#[test]
fn split_line_id_and_rest() {
    let (id, rest) = split_line("12::: Hello").unwrap();
    assert_eq!(id, "12");
    assert_eq!(rest, " Hello");
    let (id, rest) = split_line(" 7 :::x:::y").unwrap();
    assert_eq!(id, " 7 ");
    assert_eq!(rest, "x:::y");
    assert!(split_line("no separator here").is_none());
    assert!(split_line("").is_none());
}

#[test]
fn format_line_writes_protocol() {
    assert_eq!(format_line("12", "Bonjour"), "12:::Bonjour");
    assert_eq!(format_line("3", ""), "3:::");
}

#[test]
fn written_lines_reparse_to_same_id() {
    // a translated line and its placeholder parse back to the same ID
    let translated = format_line("42", "Quarante-deux");
    let placeholder = format_line("42", "");
    let (id1, _) = split_line(&translated).unwrap();
    let (id2, _) = split_line(&placeholder).unwrap();
    assert_eq!(trim_str(&id1), "42");
    assert_eq!(trim_str(&id2), "42");
}

#[test]
fn get_path_joins_with_separator() {
    assert_eq!(get_path("/opt/app", "config.json"), "/opt/app/config.json");
    assert_eq!(get_path("/opt/app/", "tran.txt"), "/opt/app/tran.txt");
    assert_eq!(get_path("", "thread.txt"), "/thread.txt");
}
