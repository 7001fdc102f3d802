//! The mirror's configuration model and the run-level decisions of a
//! synchronization: user-agent construction, source selection, and the
//! TLS pairing rule of the gateway.

use vstd::prelude::*;

use crate::download::DownloadError;

verus! {

/// The failures a mirror command can end in.
pub enum MirrorError {
    /// A file-system operation failed.
    Io,
    /// The configuration file could not be read as toml.
    Parse,
    /// The configuration is unusable; the payload says why.
    Config(String),
    /// The command line is unusable; the payload says why.
    CmdLine(String),
    /// A download failed.
    DownloadError(DownloadError),
}

/// The `mirror` section of the configuration.
pub struct ConfigMirror {
    pub retries: usize,
    pub contact: Option<String>,
}

/// The `rustup` section of the configuration.
pub struct ConfigRustup {
    pub sync: bool,
    pub download_threads: usize,
    pub source: String,
    pub download_dev: Option<bool>,
    pub download_gz: Option<bool>,
    pub download_xz: Option<bool>,
    pub platforms_unix: Option<Vec<String>>,
    pub platforms_windows: Option<Vec<String>>,
    pub keep_latest_stables: Option<usize>,
    pub keep_latest_betas: Option<usize>,
    pub keep_latest_nightlies: Option<usize>,
    pub pinned_rust_versions: Option<Vec<String>>,
}

/// The `crates` section of the configuration.
pub struct ConfigCrates {
    pub sync: bool,
    pub download_threads: usize,
    pub source: String,
    pub source_index: String,
    pub use_new_crates_format: Option<bool>,
    pub base_url: Option<String>,
}

/// The whole configuration file.
pub struct Config {
    pub mirror: ConfigMirror,
    pub rustup: Option<ConfigRustup>,
    pub crates: Option<ConfigCrates>,
}

/// The User-Agent header value of every request: the product with its
/// version, and the configured contact.  The placeholder contact of a
/// fresh configuration counts as absent, and an absent contact is named as
/// such — the origin may block a mirror that hides it.
pub fn user_agent_string(contact: Option<&str>) -> (r: String)
    ensures
        ({
            let given = match contact {
                Some(c) => c@ != "your@email.com"@,
                None => false,
            };
            if given {
                r@ == "Panamax/0.1.0 ("@ + contact->0@ + ")"@
            } else {
                r@ == "Panamax/0.1.0 (No contact information provided)"@
            }
        }),
{
    proof {
        reveal_strlit("your@email.com");
    }
    match contact {
        Some(c) => {
            let placeholder = c.to_owned() == "your@email.com".to_owned();
            if placeholder {
                "Panamax/0.1.0 (No contact information provided)".to_owned()
            } else {
                let mut r = "Panamax/0.1.0 (".to_owned();
                r.append(c);
                r.append(")");
                proof {
                    assert(r@ =~= "Panamax/0.1.0 ("@ + c@ + ")"@);
                }
                r
            }
        },
        None => "Panamax/0.1.0 (No contact information provided)".to_owned(),
    }
}

/// The configured archive source, or nothing when it is the canonical
/// origin — in which case downloads go straight to the CDN.
pub fn crates_source_override<'a>(source: &'a str) -> (r: Option<&'a str>)
    ensures
        match r {
            Some(s) => s@ == source@ && source@ != "https://crates.io/api/v1/crates"@,
            None => source@ == "https://crates.io/api/v1/crates"@,
        },
{
    proof {
        reveal_strlit("https://crates.io/api/v1/crates");
    }
    if source.to_owned() == "https://crates.io/api/v1/crates".to_owned() {
        None
    } else {
        Some(source)
    }
}

/// How many steps a toolchain sync announces: the installers, the three
/// tracks, each pinned version, and cleanup.
pub fn rustup_sync_steps(num_pinned: usize) -> (r: usize)
    requires
        num_pinned <= usize::MAX - 5,
    ensures
        r == num_pinned + 5,
{
    1 + 1 + 1 + 1 + num_pinned + 1
}

} // verus!
