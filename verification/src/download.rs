//! The hash-verifying downloader: error taxonomy, sidecar naming, decimal
//! rendering for sidecar contents, and the retry decision machine that an
//! unverified fetch loop drives.
//!
//! The machine owns every decision of a download: whether an existing file
//! makes the fetch unnecessary, whether a response body is acceptable, and
//! whether a failed attempt is retried.  The shell around the library only
//! performs the HTTP request and the file writes the machine asks for.

use sha2::Digest;
use vstd::prelude::*;

verus! {

/// The kinds of failure a download can end in.
pub enum DownloadError {
    /// A file-system operation failed.
    Io,
    /// The HTTP transport failed.
    Network,
    /// An archive name no path can be computed for.
    BadName { name: String },
    /// The body hashed to something other than the expected digest.
    MismatchedHash { expected: String, actual: String },
    /// The origin answered 403 or 404.
    NotFound { status: u16, url: String, data: String },
}

/// Append a suffix to a path given as a string.  Sidecar files (`.part`,
/// `.sha256`, `.notfound`, `.badsha256`) are named this way.
pub fn append_to_path(path: &str, suffix: &str) -> (r: String)
    ensures
        r@ == path@ + suffix@,
{
    let mut r = path.to_owned();
    r.append(suffix);
    r
}

/// Law: a sidecar or staging name never coincides with the path it is
/// derived from, so a partial download can never sit at the canonical
/// location of the artifact itself.
pub proof fn lemma_sidecar_path_differs(path: Seq<char>, suffix: Seq<char>)
    requires
        suffix.len() > 0,
    ensures
        path + suffix != path,
{
    assert((path + suffix).len() == path.len() + suffix.len());
}

/// The decimal digit characters, in order.
pub open spec fn digit_char(d: nat) -> char {
    if d == 0 {
        '0'
    } else if d == 1 {
        '1'
    } else if d == 2 {
        '2'
    } else if d == 3 {
        '3'
    } else if d == 4 {
        '4'
    } else if d == 5 {
        '5'
    } else if d == 6 {
        '6'
    } else if d == 7 {
        '7'
    } else if d == 8 {
        '8'
    } else {
        '9'
    }
}

/// The decimal numeral of `n`, without sign or leading zeros.
pub open spec fn dec_digits(n: nat) -> Seq<char>
    decreases n,
{
    if n < 10 {
        seq![digit_char(n)]
    } else {
        dec_digits(n / 10).push(digit_char(n % 10))
    }
}

fn digit_str(d: usize) -> (r: &'static str)
    requires
        d < 10,
    ensures
        r@ == seq![digit_char(d as nat)],
{
    let r = match d {
        0 => "0",
        1 => "1",
        2 => "2",
        3 => "3",
        4 => "4",
        5 => "5",
        6 => "6",
        7 => "7",
        8 => "8",
        _ => "9",
    };
    proof {
        reveal_strlit("0");
        reveal_strlit("1");
        reveal_strlit("2");
        reveal_strlit("3");
        reveal_strlit("4");
        reveal_strlit("5");
        reveal_strlit("6");
        reveal_strlit("7");
        reveal_strlit("8");
        reveal_strlit("9");
        assert(r@ =~= seq![digit_char(d as nat)]);
    }
    r
}

/// Render `n` in decimal.
pub fn dec_string(n: usize) -> (r: String)
    ensures
        r@ == dec_digits(n as nat),
    decreases n,
{
    if n < 10 {
        digit_str(n).to_owned()
    } else {
        assert(n / 10 < n) by (nonlinear_arith)
            requires
                n >= 10,
        ;
        let prefix = dec_string(n / 10);
        let r = prefix.concat(digit_str(n % 10));
        proof {
            assert(r@ =~= dec_digits(n as nat));
        }
        r
    }
}

/// What a `.notfound` sidecar records about a 403/404 answer.
pub fn notfound_contents(status: u16, text: &str) -> (r: String)
    ensures
        r@ == "Server returned "@ + dec_digits(status as nat) + ": "@ + text@,
{
    let mut r = "Server returned ".to_owned();
    r.append(dec_string(status as usize).as_str());
    r.append(": ");
    r.append(text);
    r
}

/// The lowercase-hex SHA-256 digest of a byte sequence.  The digest itself
/// is not written out here; it is pinned only as a function of the bytes.
pub uninterp spec fn sha256_hex_of(data: Seq<u8>) -> Seq<char>;

/// Relies on sha2::Sha256 through Digest::digest: the digest is a function
/// of the input bytes alone, 32 bytes long, and generic-array's LowerHex
/// renders it as exactly 64 lowercase hex characters.
#[verifier::external_body]
pub fn sha256_hex(data: &[u8]) -> (r: String)
    ensures
        r@ == sha256_hex_of(data@),
        r@.len() == 64,
{
    format!("{:x}", sha2::Sha256::digest(data))
}

/// Whether a byte sequence hashes to the given digest string.
pub fn hash_matches(data: &[u8], expected: &str) -> (r: bool)
    ensures
        r == (sha256_hex_of(data@) == expected@),
{
    let actual = sha256_hex(data);
    let exp = expected.to_owned();
    actual == exp
}

/// The first 64 characters of a `.sha256` sidecar download, which is the
/// expected digest of the file it accompanies.  `None` when the text is too
/// short to contain one.
pub fn extract_sha256_hash(text: &str) -> (r: Option<String>)
    ensures
        match r {
            Some(h) => text@.len() >= 64 && h@ == text@.subrange(0, 64),
            None => text@.len() < 64,
        },
{
    let n = text.unicode_len();
    if n < 64 {
        None
    } else {
        Some(text.substring_char(0, 64).to_owned())
    }
}

/// What one fetch attempt came back with.  The shell streams the response
/// body into the `.part` staging file and reports it here.
pub enum FetchEvent {
    /// Any HTTP answer other than 403/404: the full body, as staged.
    Body { data: Vec<u8> },
    /// HTTP 403 or 404 with the response text.
    Missing { status: u16, text: String },
    /// The transport failed before a response arrived.
    NetworkFailed,
    /// A local file operation failed.
    IoFailed,
}

/// Where a download stands.
pub enum DownloadState {
    /// The existing destination file has not been examined yet.
    Precheck,
    /// A fetch attempt is owed.
    Fetch,
    /// The existing file already satisfies the request; nothing is fetched.
    Skipped,
    /// A fetched body was accepted; the shell renames `.part` to the
    /// destination, which is the atomic commit point.
    Committed,
    /// The retry budget is exhausted.
    Failed { error: DownloadError },
}

/// Whether a fetch attempt succeeded for the given expected hash.
pub open spec fn fetch_succeeded(ev: &FetchEvent, expected: Option<String>) -> bool {
    match ev {
        FetchEvent::Body { data } => match expected {
            Some(h) => sha256_hex_of(data@) == h@,
            None => true,
        },
        _ => false,
    }
}

/// How a failed attempt is reported, seen at the level of views.
pub open spec fn error_matches_event(
    error: &DownloadError,
    ev: &FetchEvent,
    url: Seq<char>,
    expected: Option<String>,
) -> bool {
    match ev {
        FetchEvent::Body { data } => {
            &&& error matches DownloadError::MismatchedHash { expected: e, actual: a }
            &&& expected matches Some(h) && e@ == h@
            &&& a@ == sha256_hex_of(data@)
        },
        FetchEvent::Missing { status, text } => {
            &&& error matches DownloadError::NotFound { status: s, url: u, data: d }
            &&& s == status
            &&& u@ == url
            &&& d@ == text@
        },
        FetchEvent::NetworkFailed => error is Network,
        FetchEvent::IoFailed => error is Io,
    }
}

/// The decision machine of one download.  The shell constructs it, feeds it
/// the existing destination file (if any), then performs fetch attempts
/// until the state is no longer `Fetch`.
pub struct Downloader {
    /// The URL fetched, recorded for error reports.
    pub url: String,
    /// The digest the body must hash to, when one is known.
    pub expected_hash: Option<String>,
    /// How many times a failed attempt may be retried.
    pub retries: usize,
    /// Whether an existing destination file is ignored.
    pub force: bool,
    /// Fetch attempts made so far.
    pub attempts: usize,
    /// Where the download stands.
    pub state: DownloadState,
    /// The bytes accepted for the destination, once `Skipped` or
    /// `Committed`.
    pub body: Ghost<Seq<u8>>,
}

impl Downloader {
    /// Law: whenever an expected digest was supplied, a download that ended
    /// in `Skipped` or `Committed` accepted only bytes hashing to it.
    pub open spec fn hash_honest(self) -> bool {
        match self.expected_hash {
            Some(h) => (self.state is Skipped || self.state is Committed)
                ==> sha256_hex_of(self.body@) == h@,
            None => true,
        }
    }

    pub fn new(url: String, expected_hash: Option<String>, retries: usize, force: bool) -> (d:
        Self)
        requires
            retries < usize::MAX,
        ensures
            d.url == url,
            d.expected_hash == expected_hash,
            d.retries == retries,
            d.force == force,
            d.attempts == 0,
            d.state is Precheck,
            d.hash_honest(),
    {
        Downloader {
            url,
            expected_hash,
            retries,
            force,
            attempts: 0,
            state: DownloadState::Precheck,
            body: Ghost(Seq::empty()),
        }
    }

    /// Decide from the existing destination file whether a fetch is needed.
    /// `existing` carries the file's bytes when the destination exists, and
    /// `None` when it does not.  A download is skipped exactly when the file
    /// exists, `force` is off, and the expected digest is absent or already
    /// satisfied — so an unchanged mirror triggers no fetch at all.
    pub fn on_precheck(&mut self, existing: Option<&Vec<u8>>)
        requires
            old(self).state is Precheck,
        ensures
            final(self).url == old(self).url,
            final(self).expected_hash == old(self).expected_hash,
            final(self).retries == old(self).retries,
            final(self).force == old(self).force,
            final(self).attempts == old(self).attempts,
            match existing {
                Some(data) => {
                    if old(self).force {
                        final(self).state is Fetch
                    } else {
                        match old(self).expected_hash {
                            Some(h) => if sha256_hex_of(data@) == h@ {
                                final(self).state is Skipped && final(self).body@ == data@
                            } else {
                                final(self).state is Fetch
                            },
                            None => final(self).state is Skipped,
                        }
                    }
                },
                None => final(self).state is Fetch,
            },
            final(self).hash_honest(),
    {
        match existing {
            Some(data) => {
                if self.force {
                    self.state = DownloadState::Fetch;
                } else {
                    let has_hash = match &self.expected_hash {
                        Some(_) => true,
                        None => false,
                    };
                    if !has_hash {
                        self.state = DownloadState::Skipped;
                    } else {
                        let matches_hash = match &self.expected_hash {
                            Some(h) => hash_matches(data.as_slice(), h.as_str()),
                            None => false,
                        };
                        if matches_hash {
                            self.state = DownloadState::Skipped;
                            self.body = Ghost(data@);
                        } else {
                            self.state = DownloadState::Fetch;
                        }
                    }
                }
            },
            None => {
                self.state = DownloadState::Fetch;
            },
        }
    }

    /// Record the outcome of one fetch attempt.  A satisfying body commits;
    /// any failure is retried while budget remains and otherwise ends the
    /// download with the error the attempt produced.
    pub fn on_fetch(&mut self, ev: FetchEvent)
        requires
            old(self).state is Fetch,
            old(self).attempts <= old(self).retries,
            old(self).retries < usize::MAX,
        ensures
            final(self).url == old(self).url,
            final(self).expected_hash == old(self).expected_hash,
            final(self).retries == old(self).retries,
            final(self).force == old(self).force,
            final(self).attempts == old(self).attempts + 1,
            fetch_succeeded(&ev, old(self).expected_hash) ==> {
                &&& final(self).state is Committed
                &&& ev matches FetchEvent::Body { data } && final(self).body@ == data@
            },
            !fetch_succeeded(&ev, old(self).expected_hash) ==> if old(self).attempts
                < old(self).retries {
                final(self).state is Fetch
            } else {
                match final(self).state {
                    DownloadState::Failed { error } => error_matches_event(
                        &error,
                        &ev,
                        old(self).url@,
                        old(self).expected_hash,
                    ),
                    _ => false,
                }
            },
            final(self).hash_honest(),
    {
        self.attempts = self.attempts + 1;
        let last = self.attempts > self.retries;
        match ev {
            FetchEvent::Body { data } => {
                let ok = match &self.expected_hash {
                    Some(h) => hash_matches(data.as_slice(), h.as_str()),
                    None => true,
                };
                if ok {
                    self.body = Ghost(data@);
                    self.state = DownloadState::Committed;
                } else if last {
                    let expected = match &self.expected_hash {
                        Some(h) => h.clone(),
                        None => String::new(),
                    };
                    let actual = sha256_hex(data.as_slice());
                    self.state = DownloadState::Failed {
                        error: DownloadError::MismatchedHash { expected, actual },
                    };
                } else {
                    self.state = DownloadState::Fetch;
                }
            },
            FetchEvent::Missing { status, text } => {
                if last {
                    self.state = DownloadState::Failed {
                        error: DownloadError::NotFound {
                            status,
                            url: self.url.clone(),
                            data: text,
                        },
                    };
                } else {
                    self.state = DownloadState::Fetch;
                }
            },
            FetchEvent::NetworkFailed => {
                if last {
                    self.state = DownloadState::Failed { error: DownloadError::Network };
                } else {
                    self.state = DownloadState::Fetch;
                }
            },
            FetchEvent::IoFailed => {
                if last {
                    self.state = DownloadState::Failed { error: DownloadError::Io };
                } else {
                    self.state = DownloadState::Fetch;
                }
            },
        }
    }
}

} // verus!
