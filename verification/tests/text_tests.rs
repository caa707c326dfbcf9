use scmd_downloader::text::{chars_of, contains_str, find_chars, join_lines, same_text, split_chars, split_lines};

fn strings(items: &[&str]) -> Vec<String> {
    items.iter().map(|s| s.to_string()).collect()
}

#[test]
fn split_lines_like_bufread() {
    assert_eq!(split_lines("a\nb\r\nc"), strings(&["a", "b", "c"]));
    assert_eq!(split_lines("a\n\nb\n"), strings(&["a", "", "b"]));
    assert_eq!(split_lines(""), Vec::<String>::new());
    assert_eq!(split_lines("\n"), strings(&[""]));
    assert_eq!(split_lines("x\r"), strings(&["x\r"]));
}

#[test]
fn split_chars_keeps_empty_pieces() {
    let chars = chars_of("a,,b,");
    assert_eq!(split_chars(&chars, ','), strings(&["a", "", "b", ""]));
}

#[test]
fn join_lines_with_newline() {
    assert_eq!(join_lines(&strings(&["a", "b", "c"])), "a\nb\nc");
    assert_eq!(join_lines(&Vec::new()), "");
}

#[test]
fn joined_lines_read_back() {
    let list = strings(&["https://a/?id=1", "https://a/?id=2"]);
    assert_eq!(split_lines(&join_lines(&list)), list);
}

#[test]
fn contains_and_find() {
    assert!(contains_str("Update state (0x61) Success. Downloaded", "Success"));
    assert!(!contains_str("ERROR! Download item failed", "Success"));
    assert!(contains_str("abc", ""));
    let s = chars_of("abcabc");
    let p = chars_of("ca");
    assert_eq!(find_chars(&s, &p, 0), Some(2));
    assert_eq!(find_chars(&s, &p, 3), None);
}

#[test]
fn same_text_compares() {
    assert!(same_text("rename", "rename"));
    assert!(!same_text("rename", "renames"));
    assert!(!same_text("abc", "abd"));
}
