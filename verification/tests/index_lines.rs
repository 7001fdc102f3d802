use panamax::crates::entry_in_list;
use panamax::crates::error_is_swallowed;
use panamax::crates::CrateEntry;
use panamax::download::DownloadError;
use panamax::json::entries_from_lines;
use panamax::json::parse_index_line;
use panamax::verify::missing_entries;

#[test]
fn plain_entry_line() {
    let line = r#"{"name":"serde","vers":"1.0.130","cksum":"abc123","yanked":false}"#;
    let e = parse_index_line(line).expect("a plain entry parses");
    assert_eq!("serde", e.get_name());
    assert_eq!("1.0.130", e.get_vers());
    assert_eq!("abc123", e.get_cksum());
    assert!(!e.get_yanked());
}

#[test]
fn realistic_entry_line_with_extra_fields() {
    let line = r#"{"name":"a","vers":"0.1.0","deps":[{"name":"libc","req":"^0.2","features":[],"optional":false,"default_features":true,"target":null,"kind":"normal"}],"cksum":"d9f8e4","features":{"default":["std"]},"yanked":true,"links":null}"#;
    let e = parse_index_line(line).expect("nested values are passed over");
    assert_eq!("a", e.get_name());
    assert_eq!("0.1.0", e.get_vers());
    assert_eq!("d9f8e4", e.get_cksum());
    assert!(e.get_yanked());
}

#[test]
fn escapes_in_strings() {
    let line = r#"{"name":"a\"b","vers":"1\\2","cksum":"c","yanked":false}"#;
    let e = parse_index_line(line).expect("escaped quotes and backslashes parse");
    assert_eq!("a\"b", e.get_name());
    assert_eq!("1\\2", e.get_vers());
}

#[test]
fn unicode_escapes_in_strings() {
    let line = r#"{"name":"a\u0041b","vers":"1.0","cksum":"c","yanked":false}"#;
    let e = parse_index_line(line).expect("an escaped plain scalar parses");
    assert_eq!("aAb", e.get_name());
    let line2 = r#"{"name":"tab\u0009end","vers":"1.0","cksum":"c","yanked":false}"#;
    let e2 = parse_index_line(line2).expect("control characters arrive escaped");
    assert_eq!("tab\tend", e2.get_name());
    let line3 = r#"{"name":"caf\u00E9","vers":"1.0","cksum":"c","yanked":false}"#;
    let e3 = parse_index_line(line3).expect("uppercase hex digits parse");
    assert_eq!("caf\u{e9}", e3.get_name());
    // A lone surrogate half names no scalar; the line is skipped.
    assert!(parse_index_line(r#"{"name":"\ud800","vers":"1","cksum":"c","yanked":false}"#)
        .is_none());
    // A truncated escape is no escape.
    assert!(parse_index_line(r#"{"name":"\u12","vers":"1","cksum":"c","yanked":false}"#)
        .is_none());
}

#[test]
fn malformed_lines_are_rejected() {
    assert!(parse_index_line("").is_none());
    assert!(parse_index_line("not json at all").is_none());
    assert!(parse_index_line(r#"{"name":"a","vers":"0.1""#).is_none());
    // a needed field missing
    assert!(parse_index_line(r#"{"name":"a","vers":"0.1","cksum":"c"}"#).is_none());
    // a needed field duplicated
    assert!(
        parse_index_line(r#"{"name":"a","name":"b","vers":"0.1","cksum":"c","yanked":false}"#)
            .is_none()
    );
    // a needed field of the wrong shape
    assert!(
        parse_index_line(r#"{"name":17,"vers":"0.1","cksum":"c","yanked":false}"#).is_none()
    );
    assert!(
        parse_index_line(r#"{"name":"a","vers":"0.1","cksum":"c","yanked":"no"}"#).is_none()
    );
}

#[test]
fn bad_line_is_skipped_without_halting_the_walk() {
    let lines = vec![
        r#"{"name":"a","vers":"0.1","cksum":"h_a","yanked":false}"#.to_string(),
        "garbage trailer".to_string(),
        r#"{"name":"be","vers":"0.2","cksum":"h_be","yanked":false}"#.to_string(),
        "".to_string(),
    ];
    let entries = entries_from_lines(&lines);
    assert_eq!(2, entries.len());
    assert_eq!("a", entries[0].get_name());
    assert_eq!("be", entries[1].get_name());
}

#[test]
fn allowlist_filter() {
    let entry = CrateEntry::new("a".to_string(), "0.1".to_string(), "h".to_string(), false);
    let list = vec![
        CrateEntry::new("a".to_string(), "0.1".to_string(), "x".to_string(), true),
        CrateEntry::new("b".to_string(), "0.2".to_string(), "y".to_string(), false),
    ];
    assert!(entry_in_list(&entry, &list));
    let other = CrateEntry::new("a".to_string(), "0.2".to_string(), "h".to_string(), false);
    assert!(!entry_in_list(&other, &list));
}

#[test]
fn swallowed_errors() {
    assert!(error_is_swallowed(&DownloadError::NotFound {
        status: 404,
        url: "u".to_string(),
        data: "d".to_string(),
    }));
    assert!(error_is_swallowed(&DownloadError::MismatchedHash {
        expected: "e".to_string(),
        actual: "a".to_string(),
    }));
    assert!(!error_is_swallowed(&DownloadError::Network));
    assert!(!error_is_swallowed(&DownloadError::Io));
}

fn entry(name: &str, vers: &str, yanked: bool) -> CrateEntry {
    CrateEntry::new(name.to_string(), vers.to_string(), "h".to_string(), yanked)
}

#[test]
fn fully_synced_mirror_reports_zero_missing() {
    let entries = vec![entry("a", "0.1", false), entry("be", "0.2", false)];
    let present = vec![true, true];
    let missing = missing_entries(&entries, &present, false, None, &Vec::new());
    assert_eq!(0, missing.len());
}

#[test]
fn absent_archives_are_reported() {
    let entries = vec![entry("a", "0.1", false), entry("be", "0.2", false)];
    let present = vec![true, false];
    let missing = missing_entries(&entries, &present, false, None, &Vec::new());
    assert_eq!(1, missing.len());
    assert_eq!("be", missing[0].get_name());
}

#[test]
fn yanked_entries_skipped_unless_opted_in() {
    let entries = vec![entry("a", "0.1", true)];
    let present = vec![false];
    assert_eq!(0, missing_entries(&entries, &present, false, None, &Vec::new()).len());
    assert_eq!(1, missing_entries(&entries, &present, true, None, &Vec::new()).len());
}

#[test]
fn exempt_entries_never_count_missing() {
    let entries = vec![entry("glib-2-0-sys", "0.0.1", false)];
    let present = vec![false];
    let exempt = vec![("glib-2-0-sys".to_string(), "0.0.1".to_string())];
    assert_eq!(0, missing_entries(&entries, &present, false, None, &exempt).len());
}

#[test]
fn allowlist_restricts_the_verifier() {
    let entries = vec![entry("a", "0.1", false), entry("be", "0.2", false)];
    let present = vec![false, false];
    let allow = vec![("be".to_string(), "0.2".to_string())];
    let missing = missing_entries(&entries, &present, false, Some(&allow), &Vec::new());
    assert_eq!(1, missing.len());
    assert_eq!("be", missing[0].get_name());
}
