//! The HTTP gateway's decisions: TLS pairing, port selection, the strict
//! shape of condensed archive URLs, the homepage's platform listing, and
//! the parsing of CGI response heads from the git backend.

use vstd::prelude::*;

use crate::crates::spec_starts_with;
use crate::mirror::MirrorError;
use crate::text::lemma_lex_total;
use crate::text::lemma_lex_trans;
use crate::text::lex_le;
use crate::text::str_lex_le;

verus! {

/// The two files that enable TLS.
pub struct TlsConfig {
    pub cert_path: String,
    pub key_path: String,
}

/// Pair the TLS options: both paths give TLS, neither gives cleartext,
/// and one alone is a command-line error.
pub fn tls_config_of(cert_path: Option<String>, key_path: Option<String>) -> (r: Result<
    Option<TlsConfig>,
    MirrorError,
>)
    ensures
        match r {
            Ok(Some(tls)) => {
                &&& cert_path matches Some(c) && tls.cert_path@ == c@
                &&& key_path matches Some(k) && tls.key_path@ == k@
            },
            Ok(None) => cert_path is None && key_path is None,
            Err(e) => {
                &&& (cert_path is Some) != (key_path is Some)
                &&& e matches MirrorError::CmdLine(m) && (cert_path is Some ==> m@
                    == "cert_path set but key_path not set."@) && (key_path is Some ==> m@
                    == "key_path set but cert_path not set."@)
            },
        },
{
    match (cert_path, key_path) {
        (Some(cert_path), Some(key_path)) => Ok(Some(TlsConfig { cert_path, key_path })),
        (None, None) => Ok(None),
        (Some(_), None) => Err(
            MirrorError::CmdLine("cert_path set but key_path not set.".to_owned()),
        ),
        (None, Some(_)) => Err(
            MirrorError::CmdLine("key_path set but cert_path not set.".to_owned()),
        ),
    }
}

/// The port the gateway listens on: the configured one, else 8443 under
/// TLS and 8080 in the clear.
pub fn listen_port(port: Option<u16>, has_tls: bool) -> (r: u16)
    ensures
        match port {
            Some(p) => r == p,
            None => r == if has_tls {
                8443u16
            } else {
                8080u16
            },
        },
{
    match port {
        Some(p) => p,
        None => if has_tls {
            8443
        } else {
            8080
        },
    }
}

/// Whether `s` ends with `suffix`.
pub open spec fn spec_ends_with(s: Seq<char>, suffix: Seq<char>) -> bool {
    suffix.len() <= s.len() && s.subrange(s.len() - suffix.len(), s.len() as int) == suffix
}

/// The strict shape of a condensed archive URL's file component: it must
/// carry the archive suffix and must start with the crate's name, else the
/// request is not served.
pub fn condensed_file_ok(name: &str, crate_file: &str) -> (r: bool)
    ensures
        r == (spec_ends_with(crate_file@, ".crate"@) && spec_starts_with(crate_file@, name@)),
{
    proof {
        reveal_strlit(".crate");
    }
    let n = crate_file.unicode_len();
    let m = name.unicode_len();
    let ends = n >= 6 && crate_file.substring_char(n - 6, n).to_owned() == ".crate".to_owned();
    proof {
        if ends {
            assert(crate_file@.subrange(n - 6, n as int) == ".crate"@);
        }
        if spec_ends_with(crate_file@, ".crate"@) {
            assert(crate_file@.subrange(n - 6, n as int) == ".crate"@);
        }
    }
    let starts = m <= n && crate_file.substring_char(0, m).to_owned() == name.to_owned();
    proof {
        if starts {
            assert(crate_file@.subrange(0, m as int) == name@);
        }
        if spec_starts_with(crate_file@, name@) {
            assert(crate_file@.subrange(0, m as int) == name@);
        }
    }
    ends && starts
}

/// One installer platform the homepage lists.
pub struct Platform {
    pub is_exe: bool,
    pub platform_triple: String,
}

/// The homepage's order: installers without an `.exe` suffix first, then
/// by target name.
pub open spec fn spec_platform_le(a: (bool, Seq<char>), b: (bool, Seq<char>)) -> bool {
    (!a.0 && b.0) || (a.0 == b.0 && lex_le(a.1, b.1))
}

/// What a platform list holds, at the level of views.
pub open spec fn spec_platforms_view(ps: Seq<Platform>) -> Seq<(bool, Seq<char>)> {
    Seq::new(ps.len(), |i: int| (ps[i].is_exe, ps[i].platform_triple@))
}

/// Which platforms a scan of `rustup/dist/` yields: each directory with a
/// plain installer, or failing that with an `.exe` installer.
pub open spec fn spec_scanned_platforms(dirs: Seq<(String, bool, bool)>) -> Seq<(bool, Seq<
    char,
>)>
    decreases dirs.len(),
{
    if dirs.len() == 0 {
        Seq::empty()
    } else {
        spec_scanned_platforms(dirs.drop_last()) + (if dirs.last().1 {
            seq![(false, dirs.last().0@)]
        } else if dirs.last().2 {
            seq![(true, dirs.last().0@)]
        } else {
            Seq::empty()
        })
    }
}

/// List the installer platforms found on disk, sorted for the homepage.
/// `dirs` carries, per directory of `rustup/dist/`, its name and whether
/// it holds a plain or an `.exe` installer.
pub fn get_rustup_platforms(dirs: &Vec<(String, bool, bool)>) -> (r: Vec<Platform>)
    ensures
        forall|i: int, j: int|
            0 <= i < j < r@.len() ==> spec_platform_le(
                spec_platforms_view(r@)[i],
                spec_platforms_view(r@)[j],
            ),
        spec_platforms_view(r@).to_multiset() == spec_scanned_platforms(dirs@).to_multiset(),
{
    broadcast use vstd::seq_lib::group_to_multiset_ensures;
    broadcast use vstd::multiset::group_multiset_axioms;

    let mut found: Vec<Platform> = Vec::new();
    let mut i: usize = 0;
    proof {
        assert(dirs@.subrange(0, 0) =~= Seq::<(String, bool, bool)>::empty());
        assert(spec_platforms_view(found@) =~= spec_scanned_platforms(dirs@.subrange(0, 0)));
    }
    while i < dirs.len()
        invariant
            i <= dirs@.len(),
            spec_platforms_view(found@) == spec_scanned_platforms(dirs@.subrange(0, i as int)),
        decreases dirs@.len() - i,
    {
        let ghost dp = dirs@.subrange(0, i as int);
        let ghost dp1 = dirs@.subrange(0, i + 1);
        proof {
            assert(dp1.drop_last() =~= dp);
            assert(dp1.last() == dirs@[i as int]);
        }
        let has_init = dirs[i].1;
        let has_exe = dirs[i].2;
        if has_init {
            found.push(Platform { is_exe: false, platform_triple: dirs[i].0.clone() });
        } else if has_exe {
            found.push(Platform { is_exe: true, platform_triple: dirs[i].0.clone() });
        }
        proof {
            assert(spec_platforms_view(found@) =~= spec_scanned_platforms(dp1));
        }
        i = i + 1;
    }
    proof {
        assert(dirs@.subrange(0, dirs@.len() as int) =~= dirs@);
    }
    let mut rest = found;
    let mut out: Vec<Platform> = Vec::new();
    proof {
        assert(spec_platforms_view(out@) =~= Seq::<(bool, Seq<char>)>::empty());
        assert(spec_platforms_view(out@).to_multiset().add(
            spec_platforms_view(rest@).to_multiset(),
        ) =~= spec_scanned_platforms(dirs@).to_multiset());
    }
    while rest.len() > 0
        invariant
            forall|p: int, q: int|
                0 <= p < q < out@.len() ==> spec_platform_le(
                    spec_platforms_view(out@)[p],
                    spec_platforms_view(out@)[q],
                ),
            spec_platforms_view(out@).to_multiset().add(spec_platforms_view(rest@).to_multiset())
                == spec_scanned_platforms(dirs@).to_multiset(),
            forall|p: int, q: int|
                0 <= p < out@.len() && 0 <= q < rest@.len() ==> spec_platform_le(
                    spec_platforms_view(out@)[p],
                    spec_platforms_view(rest@)[q],
                ),
        decreases rest@.len(),
    {
        let mut m: usize = 0;
        let mut j: usize = 1;
        proof {
            lemma_lex_le_refl_pair(spec_platforms_view(rest@)[0]);
        }
        while j < rest.len()
            invariant
                m < j <= rest@.len(),
                rest@.len() > 0,
                forall|t: int|
                    0 <= t < j ==> spec_platform_le(
                        spec_platforms_view(rest@)[m as int],
                        spec_platforms_view(rest@)[t],
                    ),
            decreases rest@.len() - j,
        {
            let better = !platform_le(&rest[m], &rest[j]);
            proof {
                let pv = spec_platforms_view(rest@);
                lemma_platform_le_total(pv[m as int], pv[j as int]);
                lemma_lex_le_refl_pair(pv[j as int]);
                if better {
                    assert forall|t: int| 0 <= t < j implies spec_platform_le(
                        pv[j as int],
                        pv[t],
                    ) by {
                        lemma_platform_le_trans(pv[j as int], pv[m as int], pv[t]);
                    }
                }
            }
            if better {
                m = j;
            }
            j = j + 1;
        }
        let ghost old_rest = spec_platforms_view(rest@);
        let ghost old_out = spec_platforms_view(out@);
        let x = rest.remove(m);
        out.push(x);
        proof {
            let ghost xv = old_rest[m as int];
            assert(spec_platforms_view(rest@) =~= old_rest.remove(m as int));
            assert(spec_platforms_view(out@) =~= old_out.push(xv));
            assert(old_rest.contains(xv));
            vstd::seq_lib::to_multiset_build(old_out, xv);
            vstd::seq_lib::to_multiset_remove(old_rest, m as int);
            vstd::seq_lib::to_multiset_contains(old_rest, xv);
            assert(spec_platforms_view(out@).to_multiset().add(
                spec_platforms_view(rest@).to_multiset(),
            ) =~= spec_scanned_platforms(dirs@).to_multiset());
            assert forall|p: int, q: int|
                0 <= p < out@.len() && 0 <= q < rest@.len() implies spec_platform_le(
                spec_platforms_view(out@)[p],
                spec_platforms_view(rest@)[q],
            ) by {
                assert(spec_platforms_view(rest@)[q] == if q < m {
                    old_rest[q]
                } else {
                    old_rest[q + 1]
                });
            }
        }
    }
    out
}

/// The homepage's order is reflexive.
proof fn lemma_lex_le_refl_pair(a: (bool, Seq<char>))
    ensures
        spec_platform_le(a, a),
{
    crate::text::lemma_lex_refl(a.1);
}

/// The homepage's order is total.
proof fn lemma_platform_le_total(a: (bool, Seq<char>), b: (bool, Seq<char>))
    ensures
        spec_platform_le(a, b) || spec_platform_le(b, a),
{
    if a.0 == b.0 {
        lemma_lex_total(a.1, b.1);
    }
}

/// The homepage's order is transitive.
proof fn lemma_platform_le_trans(a: (bool, Seq<char>), b: (bool, Seq<char>), c: (bool, Seq<char>))
    requires
        spec_platform_le(a, b),
        spec_platform_le(b, c),
    ensures
        spec_platform_le(a, c),
{
    if a.0 == b.0 && b.0 == c.0 {
        lemma_lex_trans(a.1, b.1, c.1);
    }
}

/// Compare two platforms in the homepage's order.
fn platform_le(a: &Platform, b: &Platform) -> (r: bool)
    ensures
        r == spec_platform_le((a.is_exe, a.platform_triple@), (b.is_exe, b.platform_triple@)),
{
    if !a.is_exe && b.is_exe {
        true
    } else if a.is_exe == b.is_exe {
        str_lex_le(a.platform_triple.as_str(), b.platform_triple.as_str())
    } else {
        false
    }
}

/// Where a CGI header line splits: the first `": "` in it.
pub open spec fn spec_find_sep(s: Seq<char>, i: int) -> Option<int>
    decreases s.len() - i,
{
    if i < 0 || i + 2 > s.len() {
        None
    } else if s[i] == ':' && s[i + 1] == ' ' {
        Some(i)
    } else {
        spec_find_sep(s, i + 1)
    }
}

/// What a CGI header line carries: its name and value, split at the first
/// `": "`; a line without one carries nothing.
pub open spec fn spec_header_split(s: Seq<char>) -> Option<(Seq<char>, Seq<char>)> {
    match spec_find_sep(s, 0) {
        Some(i) => Some((s.subrange(0, i), s.subrange(i + 2, s.len() as int))),
        None => None,
    }
}

/// Split one CGI header line at the first `": "`.
pub fn header_split(line: &str) -> (r: Option<(String, String)>)
    ensures
        match r {
            Some(kv) => spec_header_split(line@) matches Some(s) && kv.0@ == s.0 && kv.1@ == s.1,
            None => spec_header_split(line@) is None,
        },
{
    let n = line.unicode_len();
    if n < 2 {
        proof {
            assert(spec_find_sep(line@, 0) is None);
        }
        return None;
    }
    let mut i: usize = 0;
    while i <= n - 2
        invariant
            n >= 2,
            i <= n,
            n == line@.len(),
            spec_find_sep(line@, 0) == spec_find_sep(line@, i as int),
        decreases n - i,
    {
        let c0 = line.get_char(i);
        let c1 = line.get_char(i + 1);
        if c0 == ':' && c1 == ' ' {
            let key = line.substring_char(0, i).to_owned();
            let value = line.substring_char(i + 2, n).to_owned();
            proof {
                assert(spec_find_sep(line@, i as int) == Some(i as int));
            }
            return Some((key, value));
        }
        proof {
            assert(spec_find_sep(line@, i as int) == spec_find_sep(line@, i + 1));
        }
        i = i + 1;
    }
    proof {
        assert(spec_find_sep(line@, i as int) is None);
    }
    None
}

/// The headers the gateway forwards from a CGI response head: every line
/// that splits, in order, except the `Status` pseudo-header.
pub open spec fn spec_cgi_headers(lines: Seq<Seq<char>>) -> Seq<(Seq<char>, Seq<char>)>
    decreases lines.len(),
{
    if lines.len() == 0 {
        Seq::empty()
    } else {
        spec_cgi_headers(lines.drop_last()) + (match spec_header_split(lines.last()) {
            Some(kv) => if kv.0 == "Status"@ {
                Seq::empty()
            } else {
                seq![kv]
            },
            None => Seq::empty(),
        })
    }
}

/// The status the CGI response head asks for: the value of its last
/// `Status` pseudo-header, if any.
pub open spec fn spec_cgi_status(lines: Seq<Seq<char>>) -> Option<Seq<char>>
    decreases lines.len(),
{
    if lines.len() == 0 {
        None
    } else {
        match spec_header_split(lines.last()) {
            Some(kv) => if kv.0 == "Status"@ {
                Some(kv.1)
            } else {
                spec_cgi_status(lines.drop_last())
            },
            None => spec_cgi_status(lines.drop_last()),
        }
    }
}

/// Read a CGI response head, as the lines before the first blank one: the
/// headers to forward, and the `Status` value when the backend set one.
pub fn parse_cgi_head(lines: &Vec<String>) -> (r: (Vec<(String, String)>, Option<String>))
    ensures
        r.0.deep_view() == spec_cgi_headers(lines.deep_view()),
        match r.1 {
            Some(v) => spec_cgi_status(lines.deep_view()) matches Some(s) && v@ == s,
            None => spec_cgi_status(lines.deep_view()) is None,
        },
{
    proof {
        reveal_strlit("Status");
    }
    let mut headers: Vec<(String, String)> = Vec::new();
    let mut status: Option<String> = None;
    let mut i: usize = 0;
    proof {
        assert(lines.deep_view().subrange(0, 0) =~= Seq::<Seq<char>>::empty());
        assert(headers.deep_view() =~= spec_cgi_headers(lines.deep_view().subrange(0, 0)));
    }
    while i < lines.len()
        invariant
            i <= lines@.len(),
            headers.deep_view() == spec_cgi_headers(lines.deep_view().subrange(0, i as int)),
            match status {
                Some(v) => spec_cgi_status(lines.deep_view().subrange(0, i as int)) matches Some(
                    s,
                ) && v@ == s,
                None => spec_cgi_status(lines.deep_view().subrange(0, i as int)) is None,
            },
        decreases lines@.len() - i,
    {
        let ghost lp = lines.deep_view().subrange(0, i as int);
        let ghost lp1 = lines.deep_view().subrange(0, i + 1);
        proof {
            assert(lp1.drop_last() =~= lp);
            assert(lp1.last() == lines.deep_view()[i as int]);
        }
        let ghost before = headers.deep_view();
        match header_split(lines[i].as_str()) {
            Some(kv) => {
                let is_status = kv.0.clone() == "Status".to_owned();
                if is_status {
                    status = Some(kv.1);
                } else {
                    headers.push(kv);
                }
            },
            None => {},
        }
        proof {
            assert(headers.deep_view() =~= spec_cgi_headers(lp1));
        }
        i = i + 1;
    }
    proof {
        assert(lines.deep_view().subrange(0, lines.deep_view().len() as int)
            =~= lines.deep_view());
    }
    (headers, status)
}


/// The CGI environment handed to the host git backend, in order: the
/// mirror root as the project root, the request path below the index
/// repository, the method, the query string (possibly empty), an empty
/// remote user, the peer address (the loopback address when none is
/// known), the content type when the request carried one, and the export
/// switch.  The subprocess sees nothing else.
pub fn git_cgi_env(
    mirror_root: &str,
    path_tail: &str,
    method: &str,
    query: &str,
    remote_addr: Option<&str>,
    content_type: Option<&str>,
) -> (r: Vec<(String, String)>)
    ensures
        r.deep_view() == seq![
            ("GIT_PROJECT_ROOT"@, mirror_root@),
            ("PATH_INFO"@, "/crates.io-index/"@ + path_tail@),
            ("REQUEST_METHOD"@, method@),
            ("QUERY_STRING"@, query@),
            ("REMOTE_USER"@, ""@),
            (
                "REMOTE_ADDR"@,
                match remote_addr {
                    Some(a) => a@,
                    None => "127.0.0.1"@,
                },
            ),
        ] + (match content_type {
            Some(ct) => seq![("CONTENT_TYPE"@, ct@)],
            None => Seq::empty(),
        }) + seq![("GIT_HTTP_EXPORT_ALL"@, "true"@)],
{
    let mut r: Vec<(String, String)> = Vec::new();
    r.push(("GIT_PROJECT_ROOT".to_owned(), mirror_root.to_owned()));
    let mut path_info = "/crates.io-index/".to_owned();
    path_info.append(path_tail);
    r.push(("PATH_INFO".to_owned(), path_info));
    r.push(("REQUEST_METHOD".to_owned(), method.to_owned()));
    r.push(("QUERY_STRING".to_owned(), query.to_owned()));
    r.push(("REMOTE_USER".to_owned(), "".to_owned()));
    let addr = match remote_addr {
        Some(a) => a.to_owned(),
        None => "127.0.0.1".to_owned(),
    };
    r.push(("REMOTE_ADDR".to_owned(), addr));
    match content_type {
        Some(ct) => {
            r.push(("CONTENT_TYPE".to_owned(), ct.to_owned()));
        },
        None => {},
    }
    r.push(("GIT_HTTP_EXPORT_ALL".to_owned(), "true".to_owned()));
    proof {
        assert(r.deep_view() =~= seq![
            ("GIT_PROJECT_ROOT"@, mirror_root@),
            ("PATH_INFO"@, "/crates.io-index/"@ + path_tail@),
            ("REQUEST_METHOD"@, method@),
            ("QUERY_STRING"@, query@),
            ("REMOTE_USER"@, ""@),
            (
                "REMOTE_ADDR"@,
                match remote_addr {
                    Some(a) => a@,
                    None => "127.0.0.1"@,
                },
            ),
        ] + (match content_type {
            Some(ct) => seq![("CONTENT_TYPE"@, ct@)],
            None => Seq::<(Seq<char>, Seq<char>)>::empty(),
        }) + seq![("GIT_HTTP_EXPORT_ALL"@, "true"@)]);
    }
    r
}

} // verus!
