use serato_scanner::parse::extract_tracks;
use serato_scanner::scan::{build_scan_result, choose_latest_log, ErrorKind};
use serato_scanner::parse::{ext_vecs, extract_line_title};
use serato_scanner::select::{is_log_file, select_latest_log, LogEntry};

fn entry(name: &str, modified: i128) -> LogEntry {
    LogEntry { name: String::from(name), modified }
}

#[test]
fn consecutive_duplicates_collapse() {
    let content = "x/Song A.mp3\nx/Song A.mp3\nx/Song B.wav";
    let tracks = extract_tracks(content);
    assert_eq!(tracks, vec![String::from("Song A"), String::from("Song B")]);
}

#[test]
fn non_adjacent_repeats_are_kept() {
    let content = "x/A.mp3\nx/B.mp3\nx/A.mp3";
    let tracks = extract_tracks(content);
    assert_eq!(tracks, vec![String::from("A"), String::from("B"), String::from("A")]);
}

#[test]
fn truncation_keeps_last_ten() {
    let mut content = String::new();
    for i in 1..=15 {
        content.push_str(&format!("d/t{:02}.mp3\n", i));
    }
    let tracks = extract_tracks(&content);
    let expected: Vec<String> = (6..=15).map(|i| format!("t{:02}", i)).collect();
    assert_eq!(tracks, expected);
}

#[test]
fn exactly_ten_tracks_all_kept() {
    let mut content = String::new();
    for i in 1..=10 {
        content.push_str(&format!("d/t{:02}.mp3\n", i));
    }
    let tracks = extract_tracks(&content);
    let expected: Vec<String> = (1..=10).map(|i| format!("t{:02}", i)).collect();
    assert_eq!(tracks, expected);
}

#[test]
fn percent20_decodes_to_space() {
    let tracks = extract_tracks("d/My%20Track.flac");
    assert_eq!(tracks, vec![String::from("My Track")]);
}

#[test]
fn name_is_trimmed() {
    let tracks = extract_tracks("d/  A  .mp3");
    assert_eq!(tracks, vec![String::from("A")]);
}

#[test]
fn empty_name_is_skipped() {
    assert!(extract_tracks("x/%20.mp3").is_empty());
    assert!(extract_tracks("x/.mp3").is_empty());
}

#[test]
fn extension_priority_prefers_mp3() {
    // `.wav` appears first in the line, but `.mp3` comes first in the
    // priority list, so the line is parsed at the leftmost `.mp3`.
    let tracks = extract_tracks("a/one.wav b/two.mp3");
    assert_eq!(tracks, vec![String::from("two")]);
}

#[test]
fn leftmost_occurrence_of_winning_extension() {
    let tracks = extract_tracks("a/b.mp3 c/d.mp3");
    assert_eq!(tracks, vec![String::from("b")]);
}

#[test]
fn wav_used_when_no_mp3() {
    let tracks = extract_tracks("a/x.wav");
    assert_eq!(tracks, vec![String::from("x")]);
}

#[test]
fn all_five_extensions_are_recognised() {
    let content = "d/a.mp3\nd/b.wav\nd/c.flac\nd/e.aiff\nd/f.m4a";
    let tracks = extract_tracks(content);
    let expected: Vec<String> =
        ["a", "b", "c", "e", "f"].iter().map(|s| String::from(*s)).collect();
    assert_eq!(tracks, expected);
}

#[test]
fn no_slash_contributes_no_track() {
    assert!(extract_tracks("justsong.mp3").is_empty());
}

#[test]
fn crlf_line_endings_are_handled() {
    let tracks = extract_tracks("x/A.mp3\r\nx/B.wav\r\n");
    assert_eq!(tracks, vec![String::from("A"), String::from("B")]);
}

#[test]
fn selects_file_with_max_mtime() {
    let entries = vec![
        entry("a.log", 5),
        entry("b.log", 9),
        entry("c.log", 7),
        entry("d.txt", 100),
    ];
    assert_eq!(select_latest_log(&entries), Some(1));
    assert!(matches!(choose_latest_log(&entries), Ok(1)));
}

#[test]
fn tie_keeps_earlier_entry() {
    let entries = vec![entry("a.log", 5), entry("b.log", 5)];
    assert_eq!(select_latest_log(&entries), Some(0));
}

#[test]
fn empty_listing_reports_no_log_file() {
    let entries: Vec<LogEntry> = Vec::new();
    assert!(matches!(choose_latest_log(&entries), Err(ErrorKind::NoLogFileFound)));
}

#[test]
fn listing_without_log_files_reports_no_log_file() {
    let entries = vec![entry("a.txt", 10), entry("b.mp3", 20)];
    assert!(matches!(choose_latest_log(&entries), Err(ErrorKind::NoLogFileFound)));
}

#[test]
fn epoch_timestamp_is_selectable() {
    let entries = vec![entry("a.log", 0)];
    assert_eq!(select_latest_log(&entries), Some(0));
    assert!(matches!(choose_latest_log(&entries), Ok(0)));
}

#[test]
fn pre_epoch_times_keep_their_order() {
    let entries = vec![entry("a.log", -5), entry("b.log", -3), entry("c.log", -9)];
    assert_eq!(select_latest_log(&entries), Some(1));
}

#[test]
fn log_extension_rules() {
    assert!(is_log_file("session.log"));
    assert!(is_log_file("a.b.log"));
    assert!(!is_log_file(".log"));
    assert!(!is_log_file("alog"));
    assert!(!is_log_file("a.LOG"));
    assert!(!is_log_file("a.log.txt"));
}

#[test]
fn scan_result_carries_file_name_and_tracks() {
    let r = build_scan_result(String::from("session.log"), "x/A.mp3");
    assert_eq!(r.file_name, "session.log");
    assert_eq!(r.tracks, vec![String::from("A")]);
}

#[test]
fn scan_is_idempotent_on_unchanged_input() {
    let content = "x/A.mp3\nx/B.wav";
    let a = build_scan_result(String::from("s.log"), content);
    let b = build_scan_result(String::from("s.log"), content);
    assert_eq!(a.file_name, b.file_name);
    assert_eq!(a.tracks, b.tracks);
}

#[test]
fn error_messages() {
    assert_eq!(ErrorKind::NoLogFileFound.message(), "no log file found");
    assert_eq!(ErrorKind::DirectoryNotFound.message(), "music or log directory not found");
    assert_eq!(ErrorKind::IoError(String::from("disk gone")).message(), "disk gone");
}

#[test]
fn first_extension_without_slash_blocks_line() {
    // `.mp3` wins the priority even though only the `.wav` mention has a
    // slash, so the line yields nothing at all.
    assert!(extract_tracks("nope.mp3 d/x.wav").is_empty());
}

#[test]
fn line_level_extraction() {
    let exts = ext_vecs();
    let line: Vec<char> = "a/b.mp3".chars().collect();
    let title = extract_line_title(&line, &exts);
    assert_eq!(title, Some(vec!['b']));
    let bare: Vec<char> = "justsong.mp3".chars().collect();
    assert_eq!(extract_line_title(&bare, &exts), None);
}

#[test]
fn slash_only_after_extension_yields_nothing() {
    assert!(extract_tracks("x.mp3/y").is_empty());
}

#[test]
fn mixed_log_content() {
    let content = "ts 10 loading track file:///Users/dj/Music/One%20Two.mp3 deck 1\n\
                   noise line without mention\n\
                   ts 11 loading track file:///Users/dj/Music/One%20Two.mp3 deck 1\n\
                   ts 12 loading track file:///Users/dj/Music/Three.m4a deck 2\n";
    let tracks = extract_tracks(content);
    assert_eq!(tracks, vec![String::from("One Two"), String::from("Three")]);
}
