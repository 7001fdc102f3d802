use panamax::crates::classify_delta;
use panamax::crates::crate_download_url;
use panamax::crates::get_crate_path;
use panamax::crates::is_new_crates_format;
use panamax::crates::removal_archive_paths;
use panamax::crates::DeltaAction;
use panamax::download::append_to_path;
use panamax::mirror::crates_source_override;
use panamax::mirror::user_agent_string;
use panamax::mirror::MirrorError;
use panamax::serve::condensed_file_ok;
use panamax::serve::listen_port;
use panamax::serve::tls_config_of;

#[test]
fn shard_patterns_by_length() {
    assert_eq!(
        Some("/m/crates/1/a/0.1.0/a-0.1.0.crate".to_string()),
        get_crate_path("/m", "a", "0.1.0")
    );
    assert_eq!(
        Some("/m/crates/2/bm/0.11.0/bm-0.11.0.crate".to_string()),
        get_crate_path("/m", "bm", "0.11.0")
    );
    assert_eq!(
        Some("/m/crates/3/c/cde/0.1.1/cde-0.1.1.crate".to_string()),
        get_crate_path("/m", "cde", "0.1.1")
    );
    assert_eq!(
        Some("/m/crates/se/rd/serde/1.0.130/serde-1.0.130.crate".to_string()),
        get_crate_path("/m", "serde", "1.0.130")
    );
    assert_eq!(
        Some("/m/crates/de/ad/dead/0.4/dead-0.4.crate".to_string()),
        get_crate_path("/m", "dead", "0.4")
    );
}

#[test]
fn empty_name_rejected() {
    assert_eq!(None, get_crate_path("/m", "", "1.0.0"));
}

#[test]
fn fresh_sync_paths() {
    // The three archive paths of a fresh synchronization.
    assert_eq!(
        Some("/m/crates/1/a/0.1/a-0.1.crate".to_string()),
        get_crate_path("/m", "a", "0.1")
    );
    assert_eq!(
        Some("/m/crates/2/be/0.2/be-0.2.crate".to_string()),
        get_crate_path("/m", "be", "0.2")
    );
    assert_eq!(
        Some("/m/crates/3/c/cde/0.3/cde-0.3.crate".to_string()),
        get_crate_path("/m", "cde", "0.3")
    );
}

#[test]
fn append_suffixes() {
    assert_eq!("a/b.crate.part".to_string(), append_to_path("a/b.crate", ".part"));
    assert_eq!("a/b.crate.sha256".to_string(), append_to_path("a/b.crate", ".sha256"));
}

#[test]
fn download_urls() {
    assert_eq!(
        "https://static.crates.io/crates/serde/serde-1.0.130.crate".to_string(),
        crate_download_url(None, "serde", "1.0.130")
    );
    assert_eq!(
        "https://example.org/serde/1.0.130/download".to_string(),
        crate_download_url(Some("https://example.org"), "serde", "1.0.130")
    );
}

#[test]
fn source_override() {
    assert_eq!(None, crates_source_override("https://crates.io/api/v1/crates"));
    assert_eq!(Some("https://example.org"), crates_source_override("https://example.org"));
}

#[test]
fn delta_classification() {
    assert!(matches!(classify_delta("config.json", false), DeltaAction::Skip));
    assert!(matches!(classify_delta(".github/workflows/ci.yml", false), DeltaAction::Skip));
    assert!(matches!(classify_delta("3/c/cde", true), DeltaAction::Removed));
    assert!(matches!(classify_delta("3/c/cde", false), DeltaAction::Parse));
    assert!(matches!(classify_delta("1/a", false), DeltaAction::Parse));
}

#[test]
fn new_format_detection() {
    let good = vec!["1".to_string(), "2".to_string(), "3".to_string(), "se".to_string()];
    assert!(is_new_crates_format(&good));
    let old = vec!["serde".to_string()];
    assert!(!is_new_crates_format(&old));
    let empty: Vec<String> = Vec::new();
    assert!(is_new_crates_format(&empty));
}

#[test]
fn condensed_url_shape() {
    assert!(condensed_file_ok("serde", "serde-1.0.130.crate"));
    assert!(!condensed_file_ok("serde", "serde-1.0.130.tar"));
    assert!(!condensed_file_ok("serde", "other-1.0.130.crate"));
}

#[test]
fn port_selection() {
    assert_eq!(8080, listen_port(None, false));
    assert_eq!(8443, listen_port(None, true));
    assert_eq!(9999, listen_port(Some(9999), true));
}

#[test]
fn tls_pairing() {
    let both = tls_config_of(Some("c.pem".to_string()), Some("k.pem".to_string()));
    match both {
        Ok(Some(tls)) => {
            assert_eq!("c.pem", tls.cert_path);
            assert_eq!("k.pem", tls.key_path);
        }
        _ => panic!("both paths should give TLS"),
    }
    assert!(matches!(tls_config_of(None, None), Ok(None)));
    match tls_config_of(Some("c.pem".to_string()), None) {
        Err(MirrorError::CmdLine(m)) => assert_eq!("cert_path set but key_path not set.", m),
        _ => panic!("cert alone must be an error"),
    }
    match tls_config_of(None, Some("k.pem".to_string())) {
        Err(MirrorError::CmdLine(m)) => assert_eq!("key_path set but cert_path not set.", m),
        _ => panic!("key alone must be an error"),
    }
}

#[test]
fn user_agent_values() {
    assert_eq!(
        "Panamax/0.1.0 (ops@example.org)".to_string(),
        user_agent_string(Some("ops@example.org"))
    );
    assert_eq!(
        "Panamax/0.1.0 (No contact information provided)".to_string(),
        user_agent_string(Some("your@email.com"))
    );
    assert_eq!(
        "Panamax/0.1.0 (No contact information provided)".to_string(),
        user_agent_string(None)
    );
}

#[test]
fn removal_deletes_the_named_archives() {
    // A removed index file's entries name exactly the archives to unlink;
    // malformed and empty-name lines contribute nothing.
    let lines = vec![
        r#"{"name":"a","vers":"0.1","cksum":"h_a","yanked":false}"#.to_string(),
        "stray text".to_string(),
        r#"{"name":"","vers":"0.9","cksum":"h","yanked":false}"#.to_string(),
        r#"{"name":"a","vers":"0.2","cksum":"h_a2","yanked":true}"#.to_string(),
    ];
    assert_eq!(
        vec![
            "/m/crates/1/a/0.1/a-0.1.crate".to_string(),
            "/m/crates/1/a/0.2/a-0.2.crate".to_string(),
        ],
        removal_archive_paths("/m", &lines)
    );
}
