use scmd_downloader::html::{build_url_list, extract_hrefs, hrefs_in_cards};

#[test]
fn hrefs_in_cards_flattens_present_values() {
    let cards = vec![
        vec![Some("u1".to_string()), None, Some("u2".to_string())],
        vec![],
        vec![None, Some("u3".to_string())],
    ];
    assert_eq!(hrefs_in_cards(&cards), vec!["u1", "u2", "u3"]);
}

const PAGE: &str = r#"
<div class="card"><a href="https://steamcommunity.com/sharedfiles/filedetails/?id=1">one</a>
  <a>no target</a></div>
<a href="https://outside/">outside</a>
<div class="card other"><span><a href="https://steamcommunity.com/sharedfiles/filedetails/?id=2">two</a></span>
  <a href="https://steamcommunity.com/sharedfiles/filedetails/?id=1">again</a></div>
"#;

#[test]
fn extract_hrefs_reads_card_links() {
    let hrefs = extract_hrefs(PAGE).unwrap();
    assert_eq!(
        hrefs,
        vec![
            "https://steamcommunity.com/sharedfiles/filedetails/?id=1",
            "https://steamcommunity.com/sharedfiles/filedetails/?id=2",
            "https://steamcommunity.com/sharedfiles/filedetails/?id=1",
        ]
    );
}

#[test]
fn extract_hrefs_without_cards() {
    assert_eq!(extract_hrefs("<p>nothing</p>").unwrap(), Vec::<String>::new());
}

#[test]
fn build_url_list_dedups_and_joins() {
    let file = build_url_list(PAGE).unwrap();
    assert_eq!(
        file,
        "https://steamcommunity.com/sharedfiles/filedetails/?id=1\nhttps://steamcommunity.com/sharedfiles/filedetails/?id=2"
    );
}
