use scmd_downloader::urls::{combine_lists, extract_id, remove_done, remove_duplicates};

fn strings(items: &[&str]) -> Vec<String> {
    items.iter().map(|s| s.to_string()).collect()
}

#[test]
fn extract_id_plain_workshop_url() {
    let url = "https://steamcommunity.com/sharedfiles/filedetails/?id=2009463077";
    assert_eq!(extract_id(url), "2009463077");
}

#[test]
fn extract_id_stops_at_ampersand() {
    let url = "https://steamcommunity.com/sharedfiles/filedetails/?id=818773962&searchtext=hugs";
    assert_eq!(extract_id(url), "818773962");
}

#[test]
fn extract_id_without_marker_is_empty() {
    assert_eq!(extract_id("https://example.com/page"), "");
    assert_eq!(extract_id(""), "");
}

#[test]
fn extract_id_stops_at_second_marker() {
    assert_eq!(extract_id("a?id=12?id=34"), "12");
}

#[test]
fn extract_id_marker_at_end() {
    assert_eq!(extract_id("x?id="), "");
    assert_eq!(extract_id("x?id=&y"), "");
}

#[test]
fn extract_id_non_ascii() {
    assert_eq!(extract_id("ü?id=é9&z"), "é9");
}

#[test]
fn remove_duplicates_keeps_first_occurrences() {
    let r = remove_duplicates(strings(&["b", "a", "b", "c", "a", "b"]));
    assert_eq!(r, strings(&["b", "a", "c"]));
}

#[test]
fn remove_duplicates_empty() {
    assert_eq!(remove_duplicates(Vec::new()), Vec::<String>::new());
}

#[test]
fn remove_duplicates_twice_is_once() {
    let once = remove_duplicates(strings(&["x", "y", "x", "z", "z"]));
    let twice = remove_duplicates(once.clone());
    assert_eq!(once, twice);
}

#[test]
fn combine_lists_is_union_without_repeats() {
    let r = combine_lists(strings(&["u1", "u2", "u1"]), strings(&["u3", "u2", "u4"]));
    assert_eq!(r, strings(&["u1", "u2", "u3", "u4"]));
}

#[test]
fn combine_lists_symmetric_as_sets() {
    let a = strings(&["p", "q"]);
    let b = strings(&["q", "r"]);
    let mut x = combine_lists(a.clone(), b.clone());
    let mut y = combine_lists(b, a);
    x.sort();
    y.sort();
    assert_eq!(x, y);
}

#[test]
fn remove_done_drops_listed_lines() {
    let r = remove_done("a\nb\nc\n", &vec![1]);
    assert_eq!(r, "a\nc\n\n");
}

#[test]
fn remove_done_nothing_listed_adds_newline() {
    assert_eq!(remove_done("a\nb", &vec![]), "a\nb\n");
    assert_eq!(remove_done("", &vec![]), "\n");
}

#[test]
fn remove_done_keeps_carriage_returns() {
    assert_eq!(remove_done("a\r\nb\r\n", &vec![0]), "b\r\n\n");
}

#[test]
fn remove_done_all_lines() {
    assert_eq!(remove_done("a\nb", &vec![0, 1, 7]), "");
}
