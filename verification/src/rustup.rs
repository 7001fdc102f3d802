//! The toolchain synchronizer: channel manifests, the derived download
//! list, channel history bookkeeping, and generation-based cleanup.

use vstd::prelude::*;

use crate::crates::spec_starts_with;
use crate::download::DownloadError;
use crate::text::join_slash;
use crate::text::lex_le;
use crate::text::sort_strings;
use crate::text::spec_sorted;
use crate::text::spec_split;
use crate::text::split_char;

verus! {

/// The failures a toolchain sync can end in.
pub enum SyncError {
    /// A file-system operation failed.
    Io,
    /// A download failed.
    Download(DownloadError),
    /// A manifest or history file could not be read as toml.
    Parse,
    /// A history file could not be written as toml.
    Serialize,
    /// A walked path did not lie under the mirror root.
    StripPrefix,
    /// The channel completed with unrecoverable download failures.
    FailedDownloads { count: usize },
}

/// The archive addresses of one target: a plain and an `xz` encoding, each
/// with its expected digest.
pub struct TargetUrls {
    pub url: String,
    pub hash: String,
    pub xz_url: String,
    pub xz_hash: String,
}

/// One target of a manifest package.
pub struct Target {
    pub available: bool,
    pub target_urls: Option<TargetUrls>,
}

/// One package of a channel manifest, with its per-target availability.
pub struct Pkg {
    pub version: String,
    pub target: Vec<(String, Target)>,
}

/// A channel manifest: its generation date and its packages.
pub struct Channel {
    pub manifest_version: String,
    pub date: String,
    pub pkg: Vec<(String, Pkg)>,
}

/// The target sets a sync run mirrors installers for.
pub struct Platforms {
    unix: Vec<String>,
    windows: Vec<String>,
}

/// What a `Platforms` value holds, at the level of views.
pub ghost struct PlatformsView {
    pub unix: Seq<Seq<char>>,
    pub windows: Seq<Seq<char>>,
}

impl View for Platforms {
    type V = PlatformsView;

    closed spec fn view(&self) -> PlatformsView {
        PlatformsView { unix: self.unix.deep_view(), windows: self.windows.deep_view() }
    }
}

impl Platforms {
    pub fn new(unix: Vec<String>, windows: Vec<String>) -> (r: Self)
        ensures
            r@.unix == unix.deep_view(),
            r@.windows == windows.deep_view(),
    {
        Platforms { unix, windows }
    }

    /// Whether a target belongs to either selected set.
    pub fn contains(&self, platform: &String) -> (r: bool)
        ensures
            r == (self@.unix.contains(platform@) || self@.windows.contains(platform@)),
    {
        str_in_vec(&self.unix, platform.as_str()) || str_in_vec(&self.windows, platform.as_str())
    }

    /// How many targets are selected in all.
    pub fn len(&self) -> (r: usize)
        requires
            self@.unix.len() + self@.windows.len() <= usize::MAX,
        ensures
            r == self@.unix.len() + self@.windows.len(),
    {
        self.unix.len() + self.windows.len()
    }

    /// The Unix targets, installers without an `.exe` suffix.
    pub fn unix_targets(&self) -> (r: &Vec<String>)
        ensures
            r.deep_view() == self@.unix,
    {
        &self.unix
    }

    /// The Windows targets, installers with an `.exe` suffix.
    pub fn windows_targets(&self) -> (r: &Vec<String>)
        ensures
            r.deep_view() == self@.windows,
    {
        &self.windows
    }
}

/// Whether a string with this view occurs in the vector.
pub fn str_in_vec(v: &Vec<String>, x: &str) -> (r: bool)
    ensures
        r == v.deep_view().contains(x@),
{
    let mut i: usize = 0;
    while i < v.len()
        invariant
            i <= v@.len(),
            forall|j: int| 0 <= j < i ==> v.deep_view()[j] != x@,
        decreases v@.len() - i,
    {
        if v[i].clone() == x.to_owned() {
            proof {
                assert(v.deep_view()[i as int] == x@);
            }
            return true;
        }
        i = i + 1;
    }
    proof {
        if v.deep_view().contains(x@) {
            let j = choose|j: int| 0 <= j < v.deep_view().len() && v.deep_view()[j] == x@;
            assert(v.deep_view()[j] == x@);
        }
    }
    false
}

/// One generation of a channel history: the manifest date and the
/// mirror-relative paths fetched for it.
pub struct HistoryEntry {
    pub date: String,
    pub files: Vec<String>,
}

/// A channel history: one generation per successfully synced manifest
/// date.
pub struct ChannelHistoryFile {
    pub versions: Vec<HistoryEntry>,
}

/// The dates of a history, in storage order.
pub open spec fn spec_history_dates(h: ChannelHistoryFile) -> Seq<Seq<char>> {
    Seq::new(h.versions@.len(), |i: int| h.versions@[i].date@)
}

/// Whether a history already holds a generation for this date.
pub open spec fn spec_history_has_date(h: ChannelHistoryFile, date: Seq<char>) -> bool {
    exists|i: int| 0 <= i < h.versions@.len() && h.versions@[i].date@ == date
}

impl ChannelHistoryFile {
    /// A history is well formed when no date repeats.
    pub open spec fn wf(self) -> bool {
        forall|i: int, j: int|
            0 <= i < j < self.versions@.len() ==> self.versions@[i].date@
                != self.versions@[j].date@
    }
}

/// The most recent `versions` dates of a history, newest first.  ISO dates
/// sort chronologically, so lexicographic order is date order.
pub fn latest_dates_from_channel_history(channel_history: &ChannelHistoryFile, versions: usize) -> (r:
    Vec<String>)
    ensures
        spec_sorted(r.deep_view(), true),
        r@.len() == if versions <= spec_history_dates(*channel_history).len() {
            versions as int
        } else {
            spec_history_dates(*channel_history).len() as int
        },
        forall|i: int|
            0 <= i < r@.len() ==> spec_history_dates(*channel_history).contains(
                #[trigger] r.deep_view()[i],
            ),
        forall|j: int, i: int|
            0 <= j < spec_history_dates(*channel_history).len() && 0 <= i < r@.len()
                && !r.deep_view().contains(spec_history_dates(*channel_history)[j]) ==> lex_le(
                #[trigger] spec_history_dates(*channel_history)[j],
                #[trigger] r.deep_view()[i],
            ),
{
    broadcast use vstd::seq_lib::group_to_multiset_ensures;
    broadcast use vstd::multiset::group_multiset_axioms;

    let ghost all = spec_history_dates(*channel_history);
    let mut dates: Vec<String> = Vec::new();
    let mut k: usize = 0;
    while k < channel_history.versions.len()
        invariant
            k <= channel_history.versions@.len(),
            dates@.len() == k,
            forall|i: int| 0 <= i < k ==> dates.deep_view()[i] == spec_history_dates(
                *channel_history,
            )[i],
        decreases channel_history.versions@.len() - k,
    {
        dates.push(channel_history.versions[k].date.clone());
        k = k + 1;
    }
    proof {
        assert(dates.deep_view() =~= all);
    }
    let mut sorted = sort_strings(&dates, true);
    let ghost full = sorted.deep_view();
    sorted.truncate(versions);
    proof {
        if versions <= full.len() {
            assert(sorted.deep_view() =~= full.subrange(0, versions as int));
        } else {
            assert(sorted.deep_view() =~= full);
        }
        let rd = sorted.deep_view();
        assert forall|i: int| 0 <= i < rd.len() implies all.contains(#[trigger] rd[i]) by {
            assert(full.contains(full[i]));
            vstd::seq_lib::to_multiset_contains(full, full[i]);
            vstd::seq_lib::to_multiset_contains(all, full[i]);
        }
        assert forall|j: int, i: int|
            0 <= j < all.len() && 0 <= i < rd.len() && !rd.contains(all[j]) implies lex_le(
            #[trigger] all[j],
            #[trigger] rd[i],
        ) by {
            let d = all[j];
            assert(all.contains(d));
            vstd::seq_lib::to_multiset_contains(all, d);
            vstd::seq_lib::to_multiset_contains(full, d);
            assert(full.contains(d));
            let p = choose|p: int| 0 <= p < full.len() && full[p] == d;
            if p < rd.len() {
                assert(rd[p] == d);
                assert(rd.contains(d));
            } else {
                if p == i {
                } else {
                    assert(lex_le(full[p], full[i]));
                }
            }
        }
    }
    sorted
}

/// The paths one generation records: the fetched artifacts, then the extra
/// files the cleanup must not discard.
pub open spec fn spec_generation_files(files: Seq<(String, String)>, extra: Seq<String>) -> Seq<
    Seq<char>,
> {
    Seq::new(files.len(), |i: int| files[i].0@) + Seq::new(extra.len(), |i: int| extra[i]@)
}

/// Append one generation to a channel history, or replace the generation
/// of the same date.  The history grows by exactly one entry when the date
/// is new, and by none when it repeats.
pub fn add_to_channel_history(
    history: &mut ChannelHistoryFile,
    date: &str,
    files: &Vec<(String, String)>,
    extra_files: &Vec<String>,
)
    requires
        old(history).wf(),
    ensures
        final(history).wf(),
        final(history).versions@.len() == old(history).versions@.len() + (if spec_history_has_date(
            *old(history),
            date@,
        ) {
            0int
        } else {
            1int
        }),
        spec_history_has_date(*final(history), date@),
        forall|i: int|
            0 <= i < old(history).versions@.len() && old(history).versions@[i].date@ != date@
                ==> final(history).versions@[i] == old(history).versions@[i],
        exists|i: int|
            {
                &&& 0 <= i < final(history).versions@.len()
                &&& (#[trigger] final(history).versions@[i].date@) == date@
                &&& final(history).versions@[i].files.deep_view() == spec_generation_files(
                    files@,
                    extra_files@,
                )
            },
{
    let mut combined: Vec<String> = Vec::new();
    let mut i: usize = 0;
    while i < files.len()
        invariant
            i <= files@.len(),
            combined@.len() == i,
            forall|t: int| 0 <= t < i ==> combined.deep_view()[t] == files@[t].0@,
        decreases files@.len() - i,
    {
        let ghost ob = combined.deep_view();
        combined.push(files[i].0.clone());
        i = i + 1;
        proof {
            assert forall|t: int| 0 <= t < i implies combined.deep_view()[t] == files@[t].0@ by {
                if t < i - 1 {
                    assert(combined.deep_view()[t] == ob[t]);
                }
            }
        }
    }
    let mut j: usize = 0;
    while j < extra_files.len()
        invariant
            j <= extra_files@.len(),
            combined@.len() == files@.len() + j,
            forall|t: int| 0 <= t < files@.len() ==> combined.deep_view()[t] == files@[t].0@,
            forall|t: int|
                0 <= t < j ==> combined.deep_view()[files@.len() + t] == extra_files@[t]@,
        decreases extra_files@.len() - j,
    {
        let ghost ob = combined.deep_view();
        combined.push(extra_files[j].clone());
        j = j + 1;
        proof {
            assert forall|t: int| 0 <= t < files@.len() implies combined.deep_view()[t]
                == files@[t].0@ by {
                assert(combined.deep_view()[t] == ob[t]);
            }
            assert forall|t: int| 0 <= t < j implies combined.deep_view()[files@.len() + t]
                == extra_files@[t]@ by {
                if t < j - 1 {
                    assert(combined.deep_view()[files@.len() + t] == ob[files@.len() + t]);
                }
            }
        }
    }
    proof {
        assert(combined.deep_view() =~= spec_generation_files(files@, extra_files@));
    }
    let mut at: usize = 0;
    let mut found = false;
    while at < history.versions.len() && !found
        invariant
            at <= history.versions@.len(),
            !found ==> forall|t: int|
                0 <= t < at ==> (#[trigger] history.versions@[t]).date@ != date@,
            found ==> at < history.versions@.len() && history.versions@[at as int].date@ == date@,
        decreases history.versions@.len() - at + (if found {
            0int
        } else {
            1int
        }),
    {
        if history.versions[at].date.clone() == date.to_owned() {
            found = true;
        } else {
            at = at + 1;
        }
    }
    let entry = HistoryEntry { date: date.to_owned(), files: combined };
    let ghost ev = entry;
    let ghost old_versions = history.versions@;
    if found {
        let _ = history.versions.remove(at);
        history.versions.insert(at, entry);
        proof {
            assert(history.versions@ =~= old_versions.update(at as int, ev));
            assert(history.versions@[at as int].date@ == date@);
        }
    } else {
        history.versions.push(entry);
        proof {
            assert(history.versions@ =~= old_versions.push(ev));
            assert(history.versions@[old_versions.len() as int].date@ == date@);
        }
    }
}


/// The mirror-relative path of an upstream artifact URL: everything after
/// the third `/`, which drops the scheme and host.
pub open spec fn spec_mirror_relative(u: Seq<char>) -> Seq<char> {
    let ps = spec_split(u, '/');
    if ps.len() <= 3 {
        Seq::empty()
    } else {
        join_slash(ps.subrange(3, ps.len() as int))
    }
}

/// Rewrite an upstream artifact URL to the path it is mirrored under.
pub fn mirror_relative(url: &str) -> (r: String)
    ensures
        r@ == spec_mirror_relative(url@),
{
    let pieces = split_char(url, '/');
    if pieces.len() <= 3 {
        let r = String::new();
        return r;
    }
    let mut r: String = pieces[3].clone();
    let mut i: usize = 4;
    proof {
        assert(pieces.deep_view().subrange(3, 4) =~= seq![pieces.deep_view()[3]]);
        assert(join_slash(pieces.deep_view().subrange(3, 4)) == pieces.deep_view()[3]);
    }
    while i < pieces.len()
        invariant
            4 <= i <= pieces@.len(),
            pieces@.len() > 3,
            r@ == join_slash(pieces.deep_view().subrange(3, i as int)),
        decreases pieces@.len() - i,
    {
        let ghost pre = pieces.deep_view().subrange(3, i as int);
        let ghost pre1 = pieces.deep_view().subrange(3, i + 1);
        proof {
            assert(pre1.drop_last() =~= pre);
            assert(pre1.last() == pieces.deep_view()[i as int]);
            assert(pre1.len() >= 2);
        }
        r.append("/");
        r.append(pieces[i].as_str());
        proof {
            reveal_strlit("/");
            assert("/"@ =~= seq!['/']);
            assert(r@ =~= join_slash(pre1));
        }
        i = i + 1;
    }
    proof {
        assert(pieces.deep_view().subrange(3, pieces.deep_view().len() as int) =~= pieces.deep_view().subrange(3, pieces@.len() as int));
    }
    r
}

/// The `(mirror-relative path, digest)` pairs one target contributes: its
/// encodings, filtered by configuration, for targets in the platform set
/// or under the wildcard `*`.
pub open spec fn spec_target_pairs(
    name: Seq<char>,
    t: Target,
    gz: bool,
    xz: bool,
    plats: PlatformsView,
) -> Seq<(Seq<char>, Seq<char>)> {
    if !(plats.unix.contains(name) || plats.windows.contains(name) || name == "*"@) {
        Seq::empty()
    } else {
        match t.target_urls {
            Option::None => Seq::empty(),
            Option::Some(u) => (if gz {
                seq![(spec_mirror_relative(u.url@), u.hash@)]
            } else {
                Seq::empty()
            }) + (if xz {
                seq![(spec_mirror_relative(u.xz_url@), u.xz_hash@)]
            } else {
                Seq::empty()
            }),
        }
    }
}

/// The pairs of a package's target table, in order.
pub open spec fn spec_targets_pairs(
    ts: Seq<(String, Target)>,
    gz: bool,
    xz: bool,
    plats: PlatformsView,
) -> Seq<(Seq<char>, Seq<char>)>
    decreases ts.len(),
{
    if ts.len() == 0 {
        Seq::empty()
    } else {
        spec_targets_pairs(ts.drop_last(), gz, xz, plats) + spec_target_pairs(
            ts.last().0@,
            ts.last().1,
            gz,
            xz,
            plats,
        )
    }
}

/// Whether a package is mirrored: development packages only on request.
pub open spec fn spec_pkg_included(name: Seq<char>, download_dev: bool) -> bool {
    download_dev || name != "rustc-dev"@
}

/// The pairs of a whole manifest, in order.
pub open spec fn spec_channel_pairs(
    pkgs: Seq<(String, Pkg)>,
    download_dev: bool,
    gz: bool,
    xz: bool,
    plats: PlatformsView,
) -> Seq<(Seq<char>, Seq<char>)>
    decreases pkgs.len(),
{
    if pkgs.len() == 0 {
        Seq::empty()
    } else {
        spec_channel_pairs(pkgs.drop_last(), download_dev, gz, xz, plats) + (if spec_pkg_included(
            pkgs.last().0@,
            download_dev,
        ) {
            spec_targets_pairs(pkgs.last().1.target@, gz, xz, plats)
        } else {
            Seq::empty()
        })
    }
}

/// Derive the artifact downloads a channel manifest asks for: for every
/// mirrored package and every selected target, the `(path, digest)` pair
/// of each enabled encoding, paths rewritten mirror-relative.  Returns the
/// manifest's date with the list.
pub fn rustup_download_list(
    channel: &Channel,
    download_dev: bool,
    download_gz: bool,
    download_xz: bool,
    platforms: &Platforms,
) -> (r: (String, Vec<(String, String)>))
    ensures
        r.0@ == channel.date@,
        r.1.deep_view() == spec_channel_pairs(
            channel.pkg@,
            download_dev,
            download_gz,
            download_xz,
            platforms@,
        ),
{
    proof {
        reveal_strlit("rustc-dev");
        reveal_strlit("*");
    }
    let mut out: Vec<(String, String)> = Vec::new();
    let mut p: usize = 0;
    proof {
        assert(channel.pkg@.subrange(0, 0) =~= Seq::<(String, Pkg)>::empty());
        assert(out.deep_view() =~= spec_channel_pairs(
            channel.pkg@.subrange(0, 0),
            download_dev,
            download_gz,
            download_xz,
            platforms@,
        ));
    }
    while p < channel.pkg.len()
        invariant
            p <= channel.pkg@.len(),
            out.deep_view() == spec_channel_pairs(
                channel.pkg@.subrange(0, p as int),
                download_dev,
                download_gz,
                download_xz,
                platforms@,
            ),
        decreases channel.pkg@.len() - p,
    {
        let ghost cp = channel.pkg@.subrange(0, p as int);
        let ghost cp1 = channel.pkg@.subrange(0, p + 1);
        proof {
            assert(cp1.drop_last() =~= cp);
            assert(cp1.last() == channel.pkg@[p as int]);
        }
        let pkg_name = &channel.pkg[p].0;
        let included = download_dev || !(pkg_name.clone() == "rustc-dev".to_owned());
        if included {
            let targets = &channel.pkg[p].1.target;
            let mut t: usize = 0;
            let ghost base = out.deep_view();
            proof {
                assert(targets@.subrange(0, 0) =~= Seq::<(String, Target)>::empty());
                assert(out.deep_view() =~= base + spec_targets_pairs(
                    targets@.subrange(0, 0),
                    download_gz,
                    download_xz,
                    platforms@,
                ));
            }
            while t < targets.len()
                invariant
                    t <= targets@.len(),
                    download_gz == download_gz,
                    out.deep_view() == base + spec_targets_pairs(
                        targets@.subrange(0, t as int),
                        download_gz,
                        download_xz,
                        platforms@,
                    ),
                decreases targets@.len() - t,
            {
                let ghost tp = targets@.subrange(0, t as int);
                let ghost tp1 = targets@.subrange(0, t + 1);
                proof {
                    reveal_strlit("*");
                    assert(tp1.drop_last() =~= tp);
                    assert(tp1.last() == targets@[t as int]);
                }
                let tname = &targets[t].0;
                let selected = platforms.contains(tname) || tname.clone() == "*".to_owned();
                if selected {
                    match &targets[t].1.target_urls {
                        Option::Some(u) => {
                            let ghost mid = out.deep_view();
                            if download_gz {
                                let rel = mirror_relative(u.url.as_str());
                                out.push((rel, u.hash.clone()));
                                proof {
                                    assert(out.deep_view() =~= mid.push(
                                        (spec_mirror_relative(u.url@), u.hash@),
                                    ));
                                }
                            }
                            let ghost mid2 = out.deep_view();
                            if download_xz {
                                let rel = mirror_relative(u.xz_url.as_str());
                                out.push((rel, u.xz_hash.clone()));
                                proof {
                                    assert(out.deep_view() =~= mid2.push(
                                        (spec_mirror_relative(u.xz_url@), u.xz_hash@),
                                    ));
                                }
                            }
                            proof {
                                assert(out.deep_view() =~= base + spec_targets_pairs(
                                    tp1,
                                    download_gz,
                                    download_xz,
                                    platforms@,
                                ));
                            }
                        },
                        Option::None => {
                            proof {
                                assert(out.deep_view() =~= base + spec_targets_pairs(
                                    tp1,
                                    download_gz,
                                    download_xz,
                                    platforms@,
                                ));
                            }
                        },
                    }
                } else {
                    proof {
                        assert(spec_target_pairs(
                            targets@[t as int].0@,
                            targets@[t as int].1,
                            download_gz,
                            download_xz,
                            platforms@,
                        ) =~= Seq::<(Seq<char>, Seq<char>)>::empty());
                        assert(out.deep_view() =~= base + spec_targets_pairs(
                            tp1,
                            download_gz,
                            download_xz,
                            platforms@,
                        ));
                    }
                }
                t = t + 1;
            }
            proof {
                assert(targets@.subrange(0, targets@.len() as int) =~= targets@);
                assert(out.deep_view() =~= spec_channel_pairs(
                    cp1,
                    download_dev,
                    download_gz,
                    download_xz,
                    platforms@,
                ));
            }
        } else {
            proof {
                assert(out.deep_view() =~= spec_channel_pairs(
                    cp1,
                    download_dev,
                    download_gz,
                    download_xz,
                    platforms@,
                ));
            }
        }
        p = p + 1;
    }
    proof {
        assert(channel.pkg@.subrange(0, channel.pkg@.len() as int) =~= channel.pkg@);
    }
    let date = channel.date.clone();
    (date, out)
}

/// The files listed under the retained dates of a history, in storage
/// order: the keep-set of cleanup.
pub open spec fn spec_kept_files(entries: Seq<HistoryEntry>, dates: Seq<Seq<char>>) -> Seq<
    Seq<char>,
>
    decreases entries.len(),
{
    if entries.len() == 0 {
        Seq::empty()
    } else {
        spec_kept_files(entries.drop_last(), dates) + (if dates.contains(entries.last().date@) {
            entries.last().files.deep_view()
        } else {
            Seq::empty()
        })
    }
}

/// Everything a retained generation lists is in the keep-set.
pub proof fn lemma_kept_files_complete(
    entries: Seq<HistoryEntry>,
    dates: Seq<Seq<char>>,
    i: int,
    k: int,
)
    requires
        0 <= i < entries.len(),
        dates.contains(entries[i].date@),
        0 <= k < entries[i].files@.len(),
    ensures
        spec_kept_files(entries, dates).contains(entries[i].files.deep_view()[k]),
    decreases entries.len(),
{
    let whole = spec_kept_files(entries, dates);
    let pre = spec_kept_files(entries.drop_last(), dates);
    if i == entries.len() - 1 {
        assert(whole[pre.len() + k] == entries[i].files.deep_view()[k]);
    } else {
        lemma_kept_files_complete(entries.drop_last(), dates, i, k);
        let f = entries[i].files.deep_view()[k];
        let t = choose|t: int| 0 <= t < pre.len() && pre[t] == f;
        assert(whole[t] == f);
    }
}

/// Collect the keep-set: the files of every generation whose date is in
/// `dates`.
pub fn files_for_dates(history: &ChannelHistoryFile, dates: &Vec<String>) -> (r: Vec<String>)
    ensures
        r.deep_view() == spec_kept_files(history.versions@, dates.deep_view()),
{
    let mut r: Vec<String> = Vec::new();
    let mut i: usize = 0;
    proof {
        assert(history.versions@.subrange(0, 0) =~= Seq::<HistoryEntry>::empty());
        assert(r.deep_view() =~= spec_kept_files(
            history.versions@.subrange(0, 0),
            dates.deep_view(),
        ));
    }
    while i < history.versions.len()
        invariant
            i <= history.versions@.len(),
            r.deep_view() == spec_kept_files(
                history.versions@.subrange(0, i as int),
                dates.deep_view(),
            ),
        decreases history.versions@.len() - i,
    {
        let ghost hp = history.versions@.subrange(0, i as int);
        let ghost hp1 = history.versions@.subrange(0, i + 1);
        proof {
            assert(hp1.drop_last() =~= hp);
            assert(hp1.last() == history.versions@[i as int]);
        }
        let entry = &history.versions[i];
        if str_in_vec(dates, entry.date.as_str()) {
            let ghost base = r.deep_view();
            let mut k: usize = 0;
            while k < entry.files.len()
                invariant
                    k <= entry.files@.len(),
                    r.deep_view() =~= base + entry.files.deep_view().subrange(0, k as int),
                decreases entry.files@.len() - k,
            {
                let ghost rb = r.deep_view();
                r.push(entry.files[k].clone());
                k = k + 1;
                proof {
                    let target = base + entry.files.deep_view().subrange(0, k as int);
                    assert(rb =~= base + entry.files.deep_view().subrange(0, k - 1));
                    assert(rb.len() == base.len() + k - 1);
                    assert(r.deep_view().len() == rb.len() + 1);
                    assert(target.len() == base.len() + k);
                    assert forall|t: int| 0 <= t < r.deep_view().len() implies r.deep_view()[t]
                        == target[t] by {
                        if t < rb.len() {
                            assert(r.deep_view()[t] == rb[t]);
                            assert(rb[t] == (base + entry.files.deep_view().subrange(0, k - 1))[t]);
                        } else {
                            assert(r.deep_view()[t] == r@[t]@);
                        }
                    }
                    assert(r.deep_view() =~= target);
                }
            }
            proof {
                assert(entry.files.deep_view().subrange(0, entry.files@.len() as int)
                    =~= entry.files.deep_view());
                assert(r.deep_view() =~= spec_kept_files(hp1, dates.deep_view()));
            }
        } else {
            proof {
                assert(r.deep_view() =~= spec_kept_files(hp1, dates.deep_view()));
            }
        }
        i = i + 1;
    }
    proof {
        assert(history.versions@.subrange(0, history.versions@.len() as int)
            =~= history.versions@);
    }
    r
}

/// The deletion-eligible files: whatever lies on disk under `dist/` and is
/// not in the keep-set, in disk order.
pub open spec fn spec_deletions(disk: Seq<Seq<char>>, keep: Seq<Seq<char>>) -> Seq<Seq<char>>
    decreases disk.len(),
{
    if disk.len() == 0 {
        Seq::empty()
    } else {
        spec_deletions(disk.drop_last(), keep) + (if keep.contains(disk.last()) {
            Seq::empty()
        } else {
            seq![disk.last()]
        })
    }
}

/// Law: cleanup never deletes a file of the keep-set.
pub proof fn lemma_deletions_spare_kept(disk: Seq<Seq<char>>, keep: Seq<Seq<char>>, f: Seq<char>)
    requires
        keep.contains(f),
    ensures
        !spec_deletions(disk, keep).contains(f),
    decreases disk.len(),
{
    if disk.len() > 0 {
        lemma_deletions_spare_kept(disk.drop_last(), keep, f);
        let whole = spec_deletions(disk, keep);
        let pre = spec_deletions(disk.drop_last(), keep);
        if whole.contains(f) {
            let t = choose|t: int| 0 <= t < whole.len() && whole[t] == f;
            if t < pre.len() {
                assert(pre[t] == f);
            } else {
                assert(!keep.contains(disk.last()));
                assert(whole[t] == disk.last());
            }
        }
    }
}

/// Law: after cleanup every file listed under a retained date still
/// exists — it is in the keep-set, and the deletion list spares the whole
/// keep-set.
pub proof fn lemma_retained_generation_survives(
    entries: Seq<HistoryEntry>,
    dates: Seq<Seq<char>>,
    disk: Seq<Seq<char>>,
    i: int,
    k: int,
)
    requires
        0 <= i < entries.len(),
        dates.contains(entries[i].date@),
        0 <= k < entries[i].files@.len(),
    ensures
        !spec_deletions(disk, spec_kept_files(entries, dates)).contains(
            entries[i].files.deep_view()[k],
        ),
{
    lemma_kept_files_complete(entries, dates, i, k);
    lemma_deletions_spare_kept(
        disk,
        spec_kept_files(entries, dates),
        entries[i].files.deep_view()[k],
    );
}

/// Compute the deletion list of cleanup from the keep-set and the files
/// found on disk.
pub fn clean_old_files(keep: &Vec<String>, disk_files: &Vec<String>) -> (r: Vec<String>)
    ensures
        r.deep_view() == spec_deletions(disk_files.deep_view(), keep.deep_view()),
{
    let mut r: Vec<String> = Vec::new();
    let mut i: usize = 0;
    proof {
        assert(disk_files.deep_view().subrange(0, 0) =~= Seq::<Seq<char>>::empty());
        assert(r.deep_view() =~= spec_deletions(
            disk_files.deep_view().subrange(0, 0),
            keep.deep_view(),
        ));
    }
    while i < disk_files.len()
        invariant
            i <= disk_files@.len(),
            r.deep_view() == spec_deletions(
                disk_files.deep_view().subrange(0, i as int),
                keep.deep_view(),
            ),
        decreases disk_files@.len() - i,
    {
        let ghost dp = disk_files.deep_view().subrange(0, i as int);
        let ghost dp1 = disk_files.deep_view().subrange(0, i + 1);
        proof {
            assert(dp1.drop_last() =~= dp);
            assert(dp1.last() == disk_files.deep_view()[i as int]);
        }
        if !str_in_vec(keep, disk_files[i].as_str()) {
            r.push(disk_files[i].clone());
        }
        proof {
            assert(r.deep_view() =~= spec_deletions(dp1, keep.deep_view()));
        }
        i = i + 1;
    }
    proof {
        assert(disk_files.deep_view().subrange(0, disk_files.deep_view().len() as int)
            =~= disk_files.deep_view());
    }
    r
}

/// The installer file name of a platform.
pub open spec fn spec_init_name(is_exe: bool) -> Seq<char> {
    if is_exe {
        "rustup-init.exe"@
    } else {
        "rustup-init"@
    }
}

/// Where one installer lives: its upstream URL, the versioned archive path
/// `rustup/archive/<version>/<platform>/…`, and the latest-installer path
/// `rustup/dist/<platform>/…` it is copied to — both mirror-relative.
pub fn rustup_init_locations(source: &str, platform: &str, is_exe: bool, rustup_version: &str) -> (r:
    (String, String, String))
    ensures
        r.0@ == source@ + "/rustup/dist/"@ + platform@ + "/"@ + spec_init_name(is_exe),
        r.1@ == "rustup/archive/"@ + rustup_version@ + "/"@ + platform@ + "/"@ + spec_init_name(
            is_exe,
        ),
        r.2@ == "rustup/dist/"@ + platform@ + "/"@ + spec_init_name(is_exe),
{
    let name: &str = if is_exe {
        "rustup-init.exe"
    } else {
        "rustup-init"
    };
    let mut url = source.to_owned();
    url.append("/rustup/dist/");
    url.append(platform);
    url.append("/");
    url.append(name);
    let mut archive = "rustup/archive/".to_owned();
    archive.append(rustup_version);
    archive.append("/");
    archive.append(platform);
    archive.append("/");
    archive.append(name);
    let mut dist = "rustup/dist/".to_owned();
    dist.append(platform);
    dist.append("/");
    dist.append(name);
    proof {
        reveal_strlit("/rustup/dist/");
        reveal_strlit("rustup/dist/");
        reveal_strlit("rustup/archive/");
        reveal_strlit("/");
        assert(url@ =~= source@ + "/rustup/dist/"@ + platform@ + "/"@ + spec_init_name(is_exe));
        assert(archive@ =~= "rustup/archive/"@ + rustup_version@ + "/"@ + platform@ + "/"@
            + spec_init_name(is_exe));
        assert(dist@ =~= "rustup/dist/"@ + platform@ + "/"@ + spec_init_name(is_exe));
    }
    (url, archive, dist)
}

/// Where the installer release stamp lives: its URL and its
/// mirror-relative path.
pub fn release_stamp_locations(source: &str) -> (r: (String, String))
    ensures
        r.0@ == source@ + "/rustup/release-stable.toml"@,
        r.1@ == "rustup/release-stable.toml"@,
{
    let mut url = source.to_owned();
    url.append("/rustup/release-stable.toml");
    let path = "rustup/release-stable.toml".to_owned();
    proof {
        assert(url@ =~= source@ + "/rustup/release-stable.toml"@);
    }
    (url, path)
}

/// Where a channel manifest lives: its URL, its mirror-relative path, and
/// the extra files its generation must keep.  A channel `nightly-<date>`
/// is the dated variant: its manifest lives under `dist/<date>/`, and the
/// manifest with its digest sidecar is recorded so cleanup keeps them.
pub fn channel_manifest_locations(source: &str, channel: &str) -> (r: (String, String, Vec<
    String>))
    ensures
        spec_starts_with(channel@, "nightly-"@) ==> {
            let inner = channel@.subrange(8, channel@.len() as int);
            &&& r.0@ == source@ + "/dist/"@ + inner + "/channel-rust-nightly.toml"@
            &&& r.1@ == "dist/"@ + inner + "/channel-rust-nightly.toml"@
            &&& r.2.deep_view() =~= seq![r.1@, r.1@ + ".sha256"@]
        },
        !spec_starts_with(channel@, "nightly-"@) ==> {
            &&& r.0@ == source@ + "/dist/channel-rust-"@ + channel@ + ".toml"@
            &&& r.1@ == "dist/channel-rust-"@ + channel@ + ".toml"@
            &&& r.2@.len() == 0
        },
{
    proof {
        reveal_strlit("nightly-");
    }
    let n = channel.unicode_len();
    let dated = n >= 8 && channel.substring_char(0, 8).to_owned() == "nightly-".to_owned();
    proof {
        if dated {
            assert(channel@.subrange(0, 8) == "nightly-"@);
        }
        if spec_starts_with(channel@, "nightly-"@) {
            assert(channel@.subrange(0, 8) == "nightly-"@);
        }
    }
    if dated {
        let inner = channel.substring_char(8, n);
        let mut url = source.to_owned();
        url.append("/dist/");
        url.append(inner);
        url.append("/channel-rust-nightly.toml");
        let mut chunk = "dist/".to_owned();
        chunk.append(inner);
        chunk.append("/channel-rust-nightly.toml");
        let mut sidecar = chunk.clone();
        sidecar.append(".sha256");
        let mut extra: Vec<String> = Vec::new();
        extra.push(chunk.clone());
        extra.push(sidecar);
        proof {
            reveal_strlit("/dist/");
            reveal_strlit("dist/");
            let iv = channel@.subrange(8, channel@.len() as int);
            assert(url@ =~= source@ + "/dist/"@ + iv + "/channel-rust-nightly.toml"@);
            assert(chunk@ =~= "dist/"@ + iv + "/channel-rust-nightly.toml"@);
            assert(extra.deep_view() =~= seq![chunk@, chunk@ + ".sha256"@]);
        }
        (url, chunk, extra)
    } else {
        let mut url = source.to_owned();
        url.append("/dist/channel-rust-");
        url.append(channel);
        url.append(".toml");
        let mut chunk = "dist/channel-rust-".to_owned();
        chunk.append(channel);
        chunk.append(".toml");
        let extra: Vec<String> = Vec::new();
        proof {
            reveal_strlit("/dist/channel-rust-");
            reveal_strlit("dist/channel-rust-");
            assert(url@ =~= source@ + "/dist/channel-rust-"@ + channel@ + ".toml"@);
            assert(chunk@ =~= "dist/channel-rust-"@ + channel@ + ".toml"@);
        }
        (url, chunk, extra)
    }
}

/// The fixed Windows target whitelist: the platforms whose installer
/// carries an `.exe` suffix.
pub open spec fn spec_windows_platforms() -> Seq<Seq<char>> {
    seq![
        "i586-pc-windows-msvc"@,
        "i686-pc-windows-gnu"@,
        "i686-pc-windows-msvc"@,
        "x86_64-pc-windows-gnu"@,
        "x86_64-pc-windows-msvc"@,
    ]
}

/// The fixed Windows target whitelist.
pub fn windows_platform_names() -> (r: Vec<String>)
    ensures
        r.deep_view() == spec_windows_platforms(),
{
    let mut r: Vec<String> = Vec::new();
    r.push("i586-pc-windows-msvc".to_owned());
    r.push("i686-pc-windows-gnu".to_owned());
    r.push("i686-pc-windows-msvc".to_owned());
    r.push("x86_64-pc-windows-gnu".to_owned());
    r.push("x86_64-pc-windows-msvc".to_owned());
    proof {
        assert(r.deep_view() =~= spec_windows_platforms());
    }
    r
}

/// The elements of `all` that are not in `excl`, in order.
pub open spec fn spec_excluding(all: Seq<Seq<char>>, excl: Seq<Seq<char>>) -> Seq<Seq<char>>
    decreases all.len(),
{
    if all.len() == 0 {
        Seq::empty()
    } else {
        spec_excluding(all.drop_last(), excl) + (if excl.contains(all.last()) {
            Seq::empty()
        } else {
            seq![all.last()]
        })
    }
}

/// Build the platform sets of a run.  Each set can be overridden by
/// configuration; by default the Unix set is everything the upstream
/// publishes minus the Windows whitelist, and the Windows set is the
/// whitelist itself.
pub fn select_platforms(
    all: &Vec<String>,
    unix_override: Option<&Vec<String>>,
    windows_override: Option<&Vec<String>>,
) -> (r: Platforms)
    ensures
        r@.unix == match unix_override {
            Some(u) => u.deep_view(),
            None => spec_excluding(all.deep_view(), spec_windows_platforms()),
        },
        r@.windows == match windows_override {
            Some(w) => w.deep_view(),
            None => spec_windows_platforms(),
        },
{
    let windows = match windows_override {
        Some(w) => {
            let mut c: Vec<String> = Vec::new();
            let mut i: usize = 0;
            while i < w.len()
                invariant
                    i <= w@.len(),
                    c@.len() == i,
                    forall|t: int| 0 <= t < i ==> c.deep_view()[t] == w.deep_view()[t],
                decreases w@.len() - i,
            {
                c.push(w[i].clone());
                i = i + 1;
            }
            proof {
                assert(c.deep_view() =~= w.deep_view());
            }
            c
        },
        None => windows_platform_names(),
    };
    let unix = match unix_override {
        Some(u) => {
            let mut c: Vec<String> = Vec::new();
            let mut i: usize = 0;
            while i < u.len()
                invariant
                    i <= u@.len(),
                    c@.len() == i,
                    forall|t: int| 0 <= t < i ==> c.deep_view()[t] == u.deep_view()[t],
                decreases u@.len() - i,
            {
                c.push(u[i].clone());
                i = i + 1;
            }
            proof {
                assert(c.deep_view() =~= u.deep_view());
            }
            c
        },
        None => {
            let defaults = windows_platform_names();
            let mut c: Vec<String> = Vec::new();
            let mut i: usize = 0;
            proof {
                assert(all.deep_view().subrange(0, 0) =~= Seq::<Seq<char>>::empty());
                assert(c.deep_view() =~= spec_excluding(
                    all.deep_view().subrange(0, 0),
                    spec_windows_platforms(),
                ));
            }
            while i < all.len()
                invariant
                    i <= all@.len(),
                    defaults.deep_view() == spec_windows_platforms(),
                    c.deep_view() == spec_excluding(
                        all.deep_view().subrange(0, i as int),
                        spec_windows_platforms(),
                    ),
                decreases all@.len() - i,
            {
                let ghost ap = all.deep_view().subrange(0, i as int);
                let ghost ap1 = all.deep_view().subrange(0, i + 1);
                proof {
                    assert(ap1.drop_last() =~= ap);
                    assert(ap1.last() == all.deep_view()[i as int]);
                }
                if !str_in_vec(&defaults, all[i].as_str()) {
                    c.push(all[i].clone());
                }
                proof {
                    assert(c.deep_view() =~= spec_excluding(ap1, spec_windows_platforms()));
                }
                i = i + 1;
            }
            proof {
                assert(all.deep_view().subrange(0, all.deep_view().len() as int)
                    =~= all.deep_view());
            }
            c
        },
    };
    Platforms::new(unix, windows)
}

/// Whether some package of the manifest publishes a target of this name;
/// the wildcard `*` names no platform.
pub open spec fn spec_channel_has_target(pkgs: Seq<(String, Pkg)>, x: Seq<char>) -> bool {
    &&& x != "*"@
    &&& exists|a: int, b: int|
        0 <= a < pkgs.len() && 0 <= b < pkgs[a].1.target@.len() && (#[trigger] pkgs[a].1.target@[b].0@)
            == x
}

/// Enumerate every target the manifest publishes, without duplicates and
/// sorted, the wildcard left out.
pub fn download_platform_list(channel: &Channel) -> (r: Vec<String>)
    ensures
        spec_sorted(r.deep_view(), false),
        r.deep_view().no_duplicates(),
        forall|x: Seq<char>|
            #[trigger] r.deep_view().contains(x) <==> spec_channel_has_target(channel.pkg@, x),
{
    broadcast use vstd::seq_lib::group_to_multiset_ensures;
    broadcast use vstd::multiset::group_multiset_axioms;

    proof {
        reveal_strlit("*");
    }
    let mut acc: Vec<String> = Vec::new();
    let mut p: usize = 0;
    while p < channel.pkg.len()
        invariant
            p <= channel.pkg@.len(),
            acc.deep_view().no_duplicates(),
            forall|x: Seq<char>|
                #[trigger] acc.deep_view().contains(x) <==> spec_channel_has_target(
                    channel.pkg@.subrange(0, p as int),
                    x,
                ),
        decreases channel.pkg@.len() - p,
    {
        let ghost cp = channel.pkg@.subrange(0, p as int);
        let ghost cp1 = channel.pkg@.subrange(0, p + 1);
        let targets = &channel.pkg[p].1.target;
        let mut t: usize = 0;
        while t < targets.len()
            invariant
                t <= targets@.len(),
                p < channel.pkg@.len(),
                targets@ == channel.pkg@[p as int].1.target@,
                acc.deep_view().no_duplicates(),
                forall|x: Seq<char>|
                    #[trigger] acc.deep_view().contains(x) <==> (spec_channel_has_target(
                        channel.pkg@.subrange(0, p as int),
                        x,
                    ) || (x != "*"@ && exists|b: int|
                        0 <= b < t && (#[trigger] channel.pkg@[p as int].1.target@[b].0@) == x)),
            decreases targets@.len() - t,
        {
            proof {
                reveal_strlit("*");
            }
            let ghost cp = channel.pkg@.subrange(0, p as int);
            let ghost tv = targets@[t as int].0@;
            let tname = &targets[t].0;
            let is_star = tname.clone() == "*".to_owned();
            let already = str_in_vec(&acc, tname.as_str());
            let ghost before = acc.deep_view();
            let pushed = !is_star && !already;
            if pushed {
                acc.push(tname.clone());
                proof {
                    assert(acc.deep_view() =~= before.push(tv));
                    assert(!before.contains(tv));
                    assert forall|i2: int, j2: int|
                        0 <= i2 < j2 < acc.deep_view().len() implies acc.deep_view()[i2]
                        != acc.deep_view()[j2] by {
                        if j2 < before.len() {
                        } else {
                            assert(acc.deep_view()[i2] == before[i2]);
                            assert(before.contains(before[i2]));
                        }
                    }
                }
            }
            proof {
                let rhs_old = |x: Seq<char>|
                    spec_channel_has_target(cp, x) || (x != "*"@ && exists|b: int|
                        0 <= b < t && (#[trigger] channel.pkg@[p as int].1.target@[b].0@) == x);
                assert forall|x: Seq<char>| #[trigger] acc.deep_view().contains(x) implies (
                spec_channel_has_target(cp, x) || (x != "*"@ && exists|b: int|
                    0 <= b < t + 1 && (#[trigger] channel.pkg@[p as int].1.target@[b].0@)
                        == x)) by {
                    let w = choose|w: int|
                        0 <= w < acc.deep_view().len() && acc.deep_view()[w] == x;
                    if pushed && w == before.len() {
                        assert(x == tv);
                        assert(channel.pkg@[p as int].1.target@[t as int].0@ == x);
                        assert(tname@ != "*"@);
                    } else {
                        assert(before[w] == x);
                        assert(before.contains(x));
                        if !spec_channel_has_target(cp, x) {
                            let b = choose|b: int|
                                0 <= b < t && channel.pkg@[p as int].1.target@[b].0@ == x;
                            assert(channel.pkg@[p as int].1.target@[b].0@ == x);
                        }
                    }
                }
                assert forall|x: Seq<char>|
                    (spec_channel_has_target(cp, x) || (x != "*"@ && exists|b: int|
                        0 <= b < t + 1 && (#[trigger] channel.pkg@[p as int].1.target@[b].0@)
                            == x)) implies #[trigger] acc.deep_view().contains(x) by {
                    if spec_channel_has_target(cp, x) || (x != "*"@ && exists|b: int|
                        0 <= b < t && (#[trigger] channel.pkg@[p as int].1.target@[b].0@) == x) {
                        assert(before.contains(x));
                        let w = choose|w: int| 0 <= w < before.len() && before[w] == x;
                        assert(acc.deep_view()[w] == x);
                    } else {
                        let b = choose|b: int|
                            0 <= b < t + 1 && channel.pkg@[p as int].1.target@[b].0@ == x;
                        assert(b == t);
                        assert(x == tv);
                        if pushed {
                            assert(acc.deep_view()[before.len() as int] == x);
                        } else if is_star {
                            assert(tname@ == "*"@);
                            assert(false);
                        } else {
                            assert(before.contains(tv));
                            let w = choose|w: int| 0 <= w < before.len() && before[w] == x;
                            assert(acc.deep_view()[w] == x);
                        }
                    }
                }
            }
            t = t + 1;
        }
        proof {
            assert forall|x: Seq<char>| #[trigger] acc.deep_view().contains(x) implies
            spec_channel_has_target(cp1, x) by {
                if spec_channel_has_target(cp, x) {
                    let (a, b) = choose|a: int, b: int|
                        0 <= a < cp.len() && 0 <= b < cp[a].1.target@.len() && (#[trigger] cp[a].1.target@[b].0@)
                            == x;
                    assert(cp1[a].1.target@[b].0@ == x);
                } else {
                    let b = choose|b: int|
                        0 <= b < targets@.len() && channel.pkg@[p as int].1.target@[b].0@ == x;
                    assert(cp1[p as int].1.target@[b].0@ == x);
                }
            }
            assert forall|x: Seq<char>| spec_channel_has_target(cp1, x) implies #[trigger] acc.deep_view().contains(
                x,
            ) by {
                let (a, b) = choose|a: int, b: int|
                    0 <= a < cp1.len() && 0 <= b < cp1[a].1.target@.len() && (#[trigger] cp1[a].1.target@[b].0@)
                        == x;
                if a < p as int {
                    assert(cp[a].1.target@[b].0@ == x);
                } else {
                    assert(channel.pkg@[p as int].1.target@[b].0@ == x);
                }
            }
        }
        p = p + 1;
    }
    proof {
        assert(channel.pkg@.subrange(0, channel.pkg@.len() as int) =~= channel.pkg@);
    }
    let sorted = sort_strings(&acc, false);
    proof {
        let sd = sorted.deep_view();
        let ad = acc.deep_view();
        assert forall|x: Seq<char>| #[trigger] sd.contains(x) implies ad.contains(x) by {
            vstd::seq_lib::to_multiset_contains(sd, x);
            vstd::seq_lib::to_multiset_contains(ad, x);
        }
        assert forall|x: Seq<char>| ad.contains(x) implies #[trigger] sd.contains(x) by {
            vstd::seq_lib::to_multiset_contains(sd, x);
            vstd::seq_lib::to_multiset_contains(ad, x);
        }
        ad.lemma_multiset_has_no_duplicates();
        assert forall|x: Seq<char>|
            sd.to_multiset().contains(x) implies sd.to_multiset().count(x) == 1 by {
            vstd::seq_lib::to_multiset_contains(sd, x);
            vstd::seq_lib::to_multiset_contains(ad, x);
        }
        sd.lemma_multiset_has_no_duplicates_conv();
    }
    sorted
}

/// How many of a batch's outcomes are unrecoverable: an absent artifact is
/// the origin's last word and is not counted.
pub open spec fn spec_failed_count(results: Seq<Option<DownloadError>>) -> int
    decreases results.len(),
{
    if results.len() == 0 {
        0
    } else {
        spec_failed_count(results.drop_last()) + (match results.last() {
            Some(e) => if e is NotFound {
                0int
            } else {
                1int
            },
            None => 0int,
        })
    }
}

/// Count the unrecoverable failures of a download batch; `None` marks a
/// task that succeeded.
pub fn count_failed_downloads(results: &Vec<Option<DownloadError>>) -> (r: usize)
    ensures
        r == spec_failed_count(results@),
{
    let mut r: usize = 0;
    let mut i: usize = 0;
    proof {
        assert(results@.subrange(0, 0) =~= Seq::<Option<DownloadError>>::empty());
    }
    while i < results.len()
        invariant
            i <= results@.len(),
            r <= i,
            r == spec_failed_count(results@.subrange(0, i as int)),
        decreases results@.len() - i,
    {
        let ghost rp = results@.subrange(0, i as int);
        let ghost rp1 = results@.subrange(0, i + 1);
        proof {
            assert(rp1.drop_last() =~= rp);
            assert(rp1.last() == results@[i as int]);
        }
        match &results[i] {
            Some(e) => {
                match e {
                    DownloadError::NotFound { .. } => {},
                    _ => {
                        r = r + 1;
                    },
                }
            },
            None => {},
        }
        i = i + 1;
    }
    proof {
        assert(results@.subrange(0, results@.len() as int) =~= results@);
    }
    r
}

/// Close a channel sync: with no unrecoverable failure the generation is
/// recorded in the history; otherwise the history stays untouched and the
/// failure count is reported, so cleanup will not believe the channel
/// healthy.
pub fn record_channel_outcome(
    errors: usize,
    history: &mut ChannelHistoryFile,
    date: &str,
    files: &Vec<(String, String)>,
    extra_files: &Vec<String>,
) -> (r: Result<(), SyncError>)
    requires
        old(history).wf(),
    ensures
        final(history).wf(),
        errors == 0 ==> {
            &&& r is Ok
            &&& final(history).versions@.len() == old(history).versions@.len() + (
            if spec_history_has_date(*old(history), date@) {
                0int
            } else {
                1int
            })
            &&& spec_history_has_date(*final(history), date@)
        },
        errors != 0 ==> {
            &&& *final(history) == *old(history)
            &&& r matches Err(SyncError::FailedDownloads { count }) && count == errors
        },
{
    if errors == 0 {
        add_to_channel_history(history, date, files, extra_files);
        Ok(())
    } else {
        Err(SyncError::FailedDownloads { count: errors })
    }
}

/// Whether a channel is synced at all: a retention count of zero switches
/// the channel off.
pub fn channel_enabled(keep: Option<usize>) -> (r: bool)
    ensures
        r == match keep {
            Some(k) => k != 0,
            None => true,
        },
{
    match keep {
        Some(k) => k != 0,
        None => true,
    }
}

/// Whether cleanup runs: only when some retention count is configured and
/// no channel of the run failed.
pub fn cleanup_decision(
    keep_stables: Option<usize>,
    keep_betas: Option<usize>,
    keep_nightlies: Option<usize>,
    failures: bool,
) -> (r: bool)
    ensures
        r == ((keep_stables is Some || keep_betas is Some || keep_nightlies is Some)
            && !failures),
{
    let any = match keep_stables {
        Some(_) => true,
        None => match keep_betas {
            Some(_) => true,
            None => match keep_nightlies {
                Some(_) => true,
                None => false,
            },
        },
    };
    any && !failures
}


/// Where one toolchain artifact is fetched from and stored: the source
/// and the mirror root, each joined to the artifact's mirror-relative
/// path.
pub fn rustup_target_locations(source: &str, mirror_path: &str, rel: &str) -> (r: (
    String,
    String,
))
    ensures
        r.0@ == source@ + "/"@ + rel@,
        r.1@ == mirror_path@ + "/"@ + rel@,
{
    let mut url = source.to_owned();
    url.append("/");
    url.append(rel);
    let mut dest = mirror_path.to_owned();
    dest.append("/");
    dest.append(rel);
    proof {
        assert(url@ =~= source@ + "/"@ + rel@);
        assert(dest@ =~= mirror_path@ + "/"@ + rel@);
    }
    (url, dest)
}

/// Whether no date repeats in a history: the executable form of `wf`,
/// for a caller that assembles a history from outside data and must meet
/// the bookkeeping functions' precondition.
pub fn history_dates_unique(history: &ChannelHistoryFile) -> (r: bool)
    ensures
        r == history.wf(),
{
    let n = history.versions.len();
    let mut i: usize = 0;
    while i < n
        invariant
            i <= n,
            n == history.versions@.len(),
            forall|a: int, b: int|
                0 <= a < b < history.versions@.len() && a < i ==> history.versions@[a].date@
                    != history.versions@[b].date@,
        decreases n - i,
    {
        let mut j: usize = i + 1;
        while j < n
            invariant
                i < j <= n,
                n == history.versions@.len(),
                forall|b: int|
                    i < b < j ==> history.versions@[i as int].date@
                        != history.versions@[b].date@,
            decreases n - j,
        {
            if history.versions[i].date.clone() == history.versions[j].date.clone() {
                proof {
                    assert(history.versions@[i as int].date@ == history.versions@[j as int].date@);
                }
                return false;
            }
            j = j + 1;
        }
        i = i + 1;
    }
    true
}

} // verus!
