use panamax::crates_index::config_json_contents;
use panamax::crates_index::json_escape;
use panamax::serve::get_rustup_platforms;
use panamax::serve::git_cgi_env;
use panamax::serve::header_split;
use panamax::serve::parse_cgi_head;

#[test]
fn config_json_for_base_url() {
    // The embedded index configuration: dl points at the condensed archive
    // layout under the mirror, api at the mirror itself.
    let contents = config_json_contents("https://example.org/crates");
    assert_eq!(
        "{\n  \"dl\": \"https://example.org/crates/{crate}/{crate}-{version}.crate\",\n  \"api\": \"https://example.org/crates\"\n}",
        contents
    );
}

#[test]
fn config_json_is_deterministic() {
    // Rewriting with the same base URL produces identical bytes, so the
    // next fast-forward can overwrite the rewrite commit harmlessly.
    assert_eq!(
        config_json_contents("https://m.internal"),
        config_json_contents("https://m.internal")
    );
}

#[test]
fn json_escaping() {
    assert_eq!("plain".to_string(), json_escape("plain"));
    assert_eq!("a\\\"b\\\\c".to_string(), json_escape("a\"b\\c"));
}

#[test]
fn header_line_splitting() {
    assert_eq!(
        Some(("Content-Type".to_string(), "text/plain".to_string())),
        header_split("Content-Type: text/plain")
    );
    assert_eq!(None, header_split("no separator here"));
    assert_eq!(Some(("A".to_string(), "b: c".to_string())), header_split("A: b: c"));
}

#[test]
fn cgi_head_parsing() {
    let lines = vec![
        "Status: 404 Not Found".to_string(),
        "Content-Type: application/x-git-upload-pack-advertisement".to_string(),
        "Expires: Fri, 01 Jan 1980 00:00:00 GMT".to_string(),
        "not a header".to_string(),
    ];
    let (headers, status) = parse_cgi_head(&lines);
    assert_eq!(Some("404 Not Found".to_string()), status);
    assert_eq!(2, headers.len());
    assert_eq!(
        ("Content-Type".to_string(), "application/x-git-upload-pack-advertisement".to_string()),
        headers[0]
    );
    assert_eq!("Expires", headers[1].0);
}

#[test]
fn cgi_head_without_status() {
    let lines = vec!["Content-Type: text/plain".to_string()];
    let (headers, status) = parse_cgi_head(&lines);
    assert_eq!(None, status);
    assert_eq!(1, headers.len());
}

#[test]
fn git_backend_environment() {
    let env = git_cgi_env(
        "/mirror",
        "info/refs",
        "GET",
        "service=git-upload-pack",
        Some("10.0.0.7"),
        None,
    );
    assert_eq!(
        vec![
            ("GIT_PROJECT_ROOT".to_string(), "/mirror".to_string()),
            ("PATH_INFO".to_string(), "/crates.io-index/info/refs".to_string()),
            ("REQUEST_METHOD".to_string(), "GET".to_string()),
            ("QUERY_STRING".to_string(), "service=git-upload-pack".to_string()),
            ("REMOTE_USER".to_string(), "".to_string()),
            ("REMOTE_ADDR".to_string(), "10.0.0.7".to_string()),
            ("GIT_HTTP_EXPORT_ALL".to_string(), "true".to_string()),
        ],
        env
    );
}

#[test]
fn git_backend_environment_with_body() {
    let env = git_cgi_env(
        "/mirror",
        "git-upload-pack",
        "POST",
        "",
        None,
        Some("application/x-git-upload-pack-request"),
    );
    assert_eq!(8, env.len());
    assert_eq!(("REMOTE_ADDR".to_string(), "127.0.0.1".to_string()), env[5]);
    assert_eq!(
        ("CONTENT_TYPE".to_string(), "application/x-git-upload-pack-request".to_string()),
        env[6]
    );
    assert_eq!(("GIT_HTTP_EXPORT_ALL".to_string(), "true".to_string()), env[7]);
}

#[test]
fn homepage_platform_listing() {
    let dirs = vec![
        ("x86_64-pc-windows-msvc".to_string(), false, true),
        ("aarch64-apple-darwin".to_string(), true, false),
        ("empty-dir".to_string(), false, false),
        ("x86_64-unknown-linux-gnu".to_string(), true, false),
    ];
    let platforms = get_rustup_platforms(&dirs);
    assert_eq!(3, platforms.len());
    // Plain installers sort before .exe installers, then by target name.
    assert_eq!("aarch64-apple-darwin", platforms[0].platform_triple);
    assert!(!platforms[0].is_exe);
    assert_eq!("x86_64-unknown-linux-gnu", platforms[1].platform_triple);
    assert!(!platforms[1].is_exe);
    assert_eq!("x86_64-pc-windows-msvc", platforms[2].platform_triple);
    assert!(platforms[2].is_exe);
}
