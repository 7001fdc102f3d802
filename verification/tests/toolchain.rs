use panamax::rustup::add_to_channel_history;
use panamax::rustup::channel_enabled;
use panamax::rustup::channel_manifest_locations;
use panamax::rustup::clean_old_files;
use panamax::rustup::cleanup_decision;
use panamax::rustup::count_failed_downloads;
use panamax::rustup::download_platform_list;
use panamax::rustup::files_for_dates;
use panamax::rustup::latest_dates_from_channel_history;
use panamax::rustup::mirror_relative;
use panamax::rustup::record_channel_outcome;
use panamax::rustup::release_stamp_locations;
use panamax::rustup::rustup_download_list;
use panamax::rustup::rustup_init_locations;
use panamax::rustup::select_platforms;
use panamax::rustup::windows_platform_names;
use panamax::rustup::Channel;
use panamax::rustup::ChannelHistoryFile;
use panamax::rustup::HistoryEntry;
use panamax::rustup::Pkg;
use panamax::rustup::Platforms;
use panamax::rustup::SyncError;
use panamax::rustup::Target;
use panamax::rustup::TargetUrls;
use panamax::download::DownloadError;

fn target_with_urls(stem: &str) -> Target {
    Target {
        available: true,
        target_urls: Some(TargetUrls {
            url: format!("https://static.rust-lang.org/dist/2020-02-02/{stem}.tar.gz"),
            hash: format!("gz-{stem}"),
            xz_url: format!("https://static.rust-lang.org/dist/2020-02-02/{stem}.tar.xz"),
            xz_hash: format!("xz-{stem}"),
        }),
    }
}

fn sample_channel() -> Channel {
    Channel {
        manifest_version: "2".to_string(),
        date: "2020-02-02".to_string(),
        pkg: vec![
            (
                "rust".to_string(),
                Pkg {
                    version: "1.41.0".to_string(),
                    target: vec![
                        ("x86_64-unknown-linux-gnu".to_string(), target_with_urls("rust-linux")),
                        ("aarch64-apple-darwin".to_string(), target_with_urls("rust-mac")),
                        (
                            "powerpc-unknown-linux-gnu".to_string(),
                            Target { available: false, target_urls: None },
                        ),
                    ],
                },
            ),
            (
                "rust-src".to_string(),
                Pkg {
                    version: "1.41.0".to_string(),
                    target: vec![("*".to_string(), target_with_urls("rust-src"))],
                },
            ),
            (
                "rustc-dev".to_string(),
                Pkg {
                    version: "1.41.0".to_string(),
                    target: vec![
                        ("x86_64-unknown-linux-gnu".to_string(), target_with_urls("rustc-dev")),
                    ],
                },
            ),
        ],
    }
}

#[test]
fn mirror_relative_drops_scheme_and_host() {
    assert_eq!(
        "dist/2020-02-02/rust.tar.xz".to_string(),
        mirror_relative("https://static.rust-lang.org/dist/2020-02-02/rust.tar.xz")
    );
    assert_eq!("".to_string(), mirror_relative("no-slashes-here"));
}

#[test]
fn download_list_filters_targets_and_encodings() {
    let platforms = Platforms::new(vec!["x86_64-unknown-linux-gnu".to_string()], Vec::new());
    let (date, files) = rustup_download_list(&sample_channel(), false, false, true, &platforms);
    assert_eq!("2020-02-02", date);
    assert_eq!(
        vec![
            ("dist/2020-02-02/rust-linux.tar.xz".to_string(), "xz-rust-linux".to_string()),
            ("dist/2020-02-02/rust-src.tar.xz".to_string(), "xz-rust-src".to_string()),
        ],
        files
    );
}

#[test]
fn download_list_with_dev_and_both_encodings() {
    let platforms = Platforms::new(vec!["x86_64-unknown-linux-gnu".to_string()], Vec::new());
    let (_, files) = rustup_download_list(&sample_channel(), true, true, true, &platforms);
    assert_eq!(6, files.len());
    assert_eq!(
        ("dist/2020-02-02/rust-linux.tar.gz".to_string(), "gz-rust-linux".to_string()),
        files[0]
    );
    assert_eq!(
        ("dist/2020-02-02/rustc-dev.tar.xz".to_string(), "xz-rustc-dev".to_string()),
        files[5]
    );
}

#[test]
fn platform_list_is_sorted_and_deduplicated() {
    let names = download_platform_list(&sample_channel());
    assert_eq!(
        vec![
            "aarch64-apple-darwin".to_string(),
            "powerpc-unknown-linux-gnu".to_string(),
            "x86_64-unknown-linux-gnu".to_string(),
        ],
        names
    );
}

#[test]
fn platform_selection_defaults() {
    let all = vec![
        "x86_64-unknown-linux-gnu".to_string(),
        "x86_64-pc-windows-msvc".to_string(),
        "aarch64-apple-darwin".to_string(),
    ];
    let p = select_platforms(&all, None, None);
    assert!(p.contains(&"x86_64-unknown-linux-gnu".to_string()));
    assert!(p.contains(&"x86_64-pc-windows-msvc".to_string()));
    assert!(p.contains(&"i686-pc-windows-gnu".to_string()));
    assert!(!p.contains(&"mips-unknown-linux-gnu".to_string()));
    // 2 Unix targets survive the Windows whitelist; 5 Windows defaults.
    assert_eq!(7, p.len());
    assert_eq!(5, windows_platform_names().len());
}

#[test]
fn platform_selection_overrides() {
    let all = vec!["x86_64-unknown-linux-gnu".to_string()];
    let unix = vec!["riscv64gc-unknown-linux-gnu".to_string()];
    let windows = vec!["x86_64-pc-windows-msvc".to_string()];
    let p = select_platforms(&all, Some(&unix), Some(&windows));
    assert_eq!(2, p.len());
    assert!(p.contains(&"riscv64gc-unknown-linux-gnu".to_string()));
    assert!(!p.contains(&"x86_64-unknown-linux-gnu".to_string()));
}

#[test]
fn latest_dates_newest_first() {
    let h = ChannelHistoryFile {
        versions: vec![
            HistoryEntry { date: "2020-01-01".to_string(), files: vec![] },
            HistoryEntry { date: "2020-03-01".to_string(), files: vec![] },
            HistoryEntry { date: "2020-02-01".to_string(), files: vec![] },
        ],
    };
    assert_eq!(
        vec!["2020-03-01".to_string(), "2020-02-01".to_string()],
        latest_dates_from_channel_history(&h, 2)
    );
    assert_eq!(3, latest_dates_from_channel_history(&h, 9).len());
}

#[test]
fn history_grows_by_one_per_new_date() {
    let mut h = ChannelHistoryFile { versions: Vec::new() };
    let files = vec![("dist/a.tar.xz".to_string(), "h1".to_string())];
    add_to_channel_history(&mut h, "2020-01-01", &files, &Vec::new());
    assert_eq!(1, h.versions.len());
    add_to_channel_history(&mut h, "2020-01-02", &files, &Vec::new());
    assert_eq!(2, h.versions.len());
    // A repeated date replaces its generation instead of growing the file.
    let files2 = vec![("dist/b.tar.xz".to_string(), "h2".to_string())];
    add_to_channel_history(&mut h, "2020-01-02", &files2, &vec!["extra.toml".to_string()]);
    assert_eq!(2, h.versions.len());
    assert_eq!(
        vec!["dist/b.tar.xz".to_string(), "extra.toml".to_string()],
        h.versions[1].files
    );
}

#[test]
fn failed_channel_does_not_record_history() {
    let mut h = ChannelHistoryFile { versions: Vec::new() };
    let files = vec![("dist/a.tar.xz".to_string(), "h1".to_string())];
    let r = record_channel_outcome(3, &mut h, "2020-01-01", &files, &Vec::new());
    assert!(matches!(r, Err(SyncError::FailedDownloads { count: 3 })));
    assert_eq!(0, h.versions.len());
    let r2 = record_channel_outcome(0, &mut h, "2020-01-01", &files, &Vec::new());
    assert!(matches!(r2, Ok(())));
    assert_eq!(1, h.versions.len());
}

#[test]
fn cleanup_keeps_latest_generation_only() {
    // Two nightly generations, retention one: every file listed under the
    // older date and not under the newest is deletion-eligible.
    let h = ChannelHistoryFile {
        versions: vec![
            HistoryEntry {
                date: "2020-01-01".to_string(),
                files: vec!["dist/old-only.tar.xz".to_string(), "dist/shared.tar.xz".to_string()],
            },
            HistoryEntry {
                date: "2020-01-02".to_string(),
                files: vec!["dist/new.tar.xz".to_string(), "dist/shared.tar.xz".to_string()],
            },
        ],
    };
    let dates = latest_dates_from_channel_history(&h, 1);
    assert_eq!(vec!["2020-01-02".to_string()], dates);
    let keep = files_for_dates(&h, &dates);
    assert_eq!(vec!["dist/new.tar.xz".to_string(), "dist/shared.tar.xz".to_string()], keep);
    let disk = vec![
        "dist/old-only.tar.xz".to_string(),
        "dist/shared.tar.xz".to_string(),
        "dist/new.tar.xz".to_string(),
        "dist/stray.tar.xz".to_string(),
    ];
    assert_eq!(
        vec!["dist/old-only.tar.xz".to_string(), "dist/stray.tar.xz".to_string()],
        clean_old_files(&keep, &disk)
    );
}

#[test]
fn manifest_locations_plain_channel() {
    let (url, chunk, extra) = channel_manifest_locations("https://static.rust-lang.org", "stable");
    assert_eq!("https://static.rust-lang.org/dist/channel-rust-stable.toml", url);
    assert_eq!("dist/channel-rust-stable.toml", chunk);
    assert!(extra.is_empty());
}

#[test]
fn manifest_locations_dated_nightly() {
    let (url, chunk, extra) =
        channel_manifest_locations("https://static.rust-lang.org", "nightly-2020-02-02");
    assert_eq!("https://static.rust-lang.org/dist/2020-02-02/channel-rust-nightly.toml", url);
    assert_eq!("dist/2020-02-02/channel-rust-nightly.toml", chunk);
    assert_eq!(
        vec![
            "dist/2020-02-02/channel-rust-nightly.toml".to_string(),
            "dist/2020-02-02/channel-rust-nightly.toml.sha256".to_string(),
        ],
        extra
    );
}

#[test]
fn installer_locations() {
    let (url, archive, dist) = rustup_init_locations(
        "https://static.rust-lang.org",
        "x86_64-pc-windows-msvc",
        true,
        "1.26.0",
    );
    assert_eq!(
        "https://static.rust-lang.org/rustup/dist/x86_64-pc-windows-msvc/rustup-init.exe",
        url
    );
    assert_eq!("rustup/archive/1.26.0/x86_64-pc-windows-msvc/rustup-init.exe", archive);
    assert_eq!("rustup/dist/x86_64-pc-windows-msvc/rustup-init.exe", dist);
    let (u2, a2, d2) = rustup_init_locations("https://s", "aarch64-apple-darwin", false, "1.26.0");
    assert_eq!("https://s/rustup/dist/aarch64-apple-darwin/rustup-init", u2);
    assert_eq!("rustup/archive/1.26.0/aarch64-apple-darwin/rustup-init", a2);
    assert_eq!("rustup/dist/aarch64-apple-darwin/rustup-init", d2);
    let (ru, rp) = release_stamp_locations("https://s");
    assert_eq!("https://s/rustup/release-stable.toml", ru);
    assert_eq!("rustup/release-stable.toml", rp);
}

#[test]
fn batch_failure_counting() {
    let results = vec![
        None,
        Some(DownloadError::NotFound {
            status: 404,
            url: "u".to_string(),
            data: "d".to_string(),
        }),
        Some(DownloadError::Network),
        Some(DownloadError::MismatchedHash {
            expected: "e".to_string(),
            actual: "a".to_string(),
        }),
    ];
    // Absence at the origin is swallowed; the other two failures count.
    assert_eq!(2, count_failed_downloads(&results));
}

#[test]
fn sync_decisions() {
    assert!(channel_enabled(None));
    assert!(channel_enabled(Some(3)));
    assert!(!channel_enabled(Some(0)));
    assert!(cleanup_decision(Some(1), None, None, false));
    assert!(!cleanup_decision(None, None, None, false));
    assert!(!cleanup_decision(Some(1), Some(1), Some(1), true));
}
