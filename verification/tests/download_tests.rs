use scmd_downloader::cli::{parse_args, Command};
use scmd_downloader::download::{reports_success, DownloadRun, DownloadStep};
use scmd_downloader::text::split_lines;
use scmd_downloader::urls::remove_done;

fn strings(items: &[&str]) -> Vec<String> {
    items.iter().map(|s| s.to_string()).collect()
}

#[test]
fn reports_success_line() {
    assert!(reports_success("Success. Downloaded item 123"));
    assert!(!reports_success("ERROR! Timeout downloading item"));
}

#[test]
fn run_fetches_skips_and_records() {
    let mut run = DownloadRun::new(strings(&[
        "https://s/?id=1",
        "",
        "https://s/?id=2&x",
        "https://s/?id=3",
    ]));
    match run.next_step() {
        DownloadStep::Fetch { id } => assert_eq!(id, "1"),
        _ => panic!("expected fetch"),
    }
    assert!(run.awaiting_result());
    run.record_download(true);
    match run.next_step() {
        DownloadStep::SkipEmpty { line, url } => {
            assert_eq!(line, 1);
            assert_eq!(url, "");
        }
        _ => panic!("expected skip"),
    }
    match run.next_step() {
        DownloadStep::Fetch { id } => assert_eq!(id, "2"),
        _ => panic!("expected fetch"),
    }
    run.record_download(false);
    match run.next_step() {
        DownloadStep::Fetch { id } => assert_eq!(id, "3"),
        _ => panic!("expected fetch"),
    }
    run.record_download(true);
    assert!(matches!(run.next_step(), DownloadStep::Finished));
    assert_eq!(run.succeeded(), vec![0, 3]);
}

/// Runs over the lines of `file`, where the downloads of `ok_ids` succeed.
fn finished_file(file: &str, ok_ids: &[&str]) -> String {
    let mut run = DownloadRun::new(split_lines(file));
    loop {
        match run.next_step() {
            DownloadStep::Finished => break,
            DownloadStep::SkipEmpty { .. } => {}
            DownloadStep::Fetch { id } => run.record_download(ok_ids.contains(&id.as_str())),
        }
    }
    remove_done(file, &run.succeeded())
}

#[test]
fn run_removes_the_line_of_the_finished_download() {
    let file = "https://s/?id=1\njunk\nhttps://s/?id=2";
    assert_eq!(finished_file(file, &["2"]), "https://s/?id=1\njunk\n");
    assert_eq!(finished_file(file, &["1", "2"]), "junk\n");
}

#[test]
fn run_over_nothing_finishes() {
    let mut run = DownloadRun::new(Vec::new());
    assert!(matches!(run.next_step(), DownloadStep::Finished));
    assert!(run.succeeded().is_empty());
}

#[test]
fn parse_args_commands() {
    assert!(matches!(parse_args(&strings(&["prog"])), Command::Usage));
    match parse_args(&strings(&["prog", "rename"])) {
        Command::Rename { appid } => assert_eq!(appid, "294100"),
        _ => panic!("expected rename"),
    }
    match parse_args(&strings(&["prog", "download", "233860"])) {
        Command::Download { appid } => assert_eq!(appid, "233860"),
        _ => panic!("expected download"),
    }
    match parse_args(&strings(&["prog", "download", "233860", "extra"])) {
        Command::Download { appid } => assert_eq!(appid, "294100"),
        _ => panic!("expected download"),
    }
    assert!(matches!(parse_args(&strings(&["prog", "other"])), Command::Unknown));
}
