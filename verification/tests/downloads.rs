use panamax::download::append_to_path;
use panamax::download::dec_string;
use panamax::download::extract_sha256_hash;
use panamax::download::hash_matches;
use panamax::download::notfound_contents;
use panamax::download::DownloadError;
use panamax::download::DownloadState;
use panamax::download::Downloader;
use panamax::download::FetchEvent;

const ABC_SHA256: &str = "ba7816bf8f01cfea414140de5dae2223b00361a396177a9cb410ff61f20015ad";

#[test]
fn digest_of_known_bytes() {
    // Would fail if the digest wrapper handed its argument back unchanged.
    assert!(hash_matches(b"abc", ABC_SHA256));
    assert!(!hash_matches(b"abd", ABC_SHA256));
    assert!(!hash_matches(b"abc", "abc"));
}

#[test]
fn existing_file_with_matching_hash_skips_fetch() {
    // Re-syncing an unchanged mirror fetches no archive bodies.
    let mut d = Downloader::new("https://o/x".to_string(), Some(ABC_SHA256.to_string()), 2, false);
    let body = b"abc".to_vec();
    d.on_precheck(Some(&body));
    assert!(matches!(d.state, DownloadState::Skipped));
    assert_eq!(0, d.attempts);
}

#[test]
fn existing_file_without_expected_hash_skips_fetch() {
    let mut d = Downloader::new("https://o/x".to_string(), None, 2, false);
    let body = b"whatever".to_vec();
    d.on_precheck(Some(&body));
    assert!(matches!(d.state, DownloadState::Skipped));
}

#[test]
fn missing_file_needs_fetch_and_commits_on_good_body() {
    let mut d = Downloader::new("https://o/x".to_string(), Some(ABC_SHA256.to_string()), 2, false);
    d.on_precheck(None);
    assert!(matches!(d.state, DownloadState::Fetch));
    d.on_fetch(FetchEvent::Body { data: b"abc".to_vec() });
    assert!(matches!(d.state, DownloadState::Committed));
    assert_eq!(1, d.attempts);
}

#[test]
fn force_refetches_even_when_present() {
    let mut d = Downloader::new("https://o/x".to_string(), None, 0, true);
    let body = b"abc".to_vec();
    d.on_precheck(Some(&body));
    assert!(matches!(d.state, DownloadState::Fetch));
}

#[test]
fn corrupt_body_exhausts_retries_then_fails_with_mismatch() {
    // After all retries the archive is not committed; the computed digest
    // is reported for the .badsha256 sidecar.
    let retries = 2;
    let mut d = Downloader::new(
        "https://o/be".to_string(),
        Some(ABC_SHA256.to_string()),
        retries,
        false,
    );
    d.on_precheck(None);
    for _ in 0..retries {
        d.on_fetch(FetchEvent::Body { data: b"wrong bytes".to_vec() });
        assert!(matches!(d.state, DownloadState::Fetch));
    }
    d.on_fetch(FetchEvent::Body { data: b"wrong bytes".to_vec() });
    match &d.state {
        DownloadState::Failed { error: DownloadError::MismatchedHash { expected, actual } } => {
            assert_eq!(ABC_SHA256, expected);
            assert_eq!(64, actual.len());
            assert_ne!(ABC_SHA256, actual);
        }
        _ => panic!("exhausted retries must fail with the mismatch"),
    }
    assert_eq!(retries + 1, d.attempts);
    assert_eq!("m/crates/2/be/0.2/be-0.2.crate.badsha256", {
        append_to_path("m/crates/2/be/0.2/be-0.2.crate", ".badsha256")
    });
}

#[test]
fn missing_at_origin_is_reported_with_status() {
    let mut d = Downloader::new("https://o/x".to_string(), Some(ABC_SHA256.to_string()), 0, false);
    d.on_precheck(None);
    d.on_fetch(FetchEvent::Missing { status: 404, text: "gone".to_string() });
    match &d.state {
        DownloadState::Failed { error: DownloadError::NotFound { status, url, data } } => {
            assert_eq!(404, *status);
            assert_eq!("https://o/x", url);
            assert_eq!("gone", data);
        }
        _ => panic!("a 404 with no budget left must fail as NotFound"),
    }
}

#[test]
fn network_failures_retry_then_fail() {
    let mut d = Downloader::new("https://o/x".to_string(), None, 1, false);
    d.on_precheck(None);
    d.on_fetch(FetchEvent::NetworkFailed);
    assert!(matches!(d.state, DownloadState::Fetch));
    d.on_fetch(FetchEvent::NetworkFailed);
    assert!(matches!(d.state, DownloadState::Failed { error: DownloadError::Network }));
}

#[test]
fn notfound_sidecar_contents() {
    assert_eq!(
        "Server returned 404: not here".to_string(),
        notfound_contents(404, "not here")
    );
}

#[test]
fn decimal_rendering() {
    assert_eq!("0".to_string(), dec_string(0));
    assert_eq!("7".to_string(), dec_string(7));
    assert_eq!("403".to_string(), dec_string(403));
    assert_eq!("10010".to_string(), dec_string(10010));
}

#[test]
fn sidecar_hash_extraction() {
    let text = format!("{}  rustup-init\n", ABC_SHA256);
    assert_eq!(Some(ABC_SHA256.to_string()), extract_sha256_hash(&text));
    assert_eq!(None, extract_sha256_hash("too short"));
}
