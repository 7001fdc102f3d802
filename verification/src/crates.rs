//! The package archive store: index entries, the shard function that places
//! every archive, download URL construction, and the classification of
//! index tree-diff deltas.

use vstd::prelude::*;

use crate::json::entries_from_lines;
use crate::json::spec_entries_of_lines;

verus! {

/// One entry of an index file: such files carry one JSON object per line.
pub struct CrateEntry {
    name: String,
    vers: String,
    cksum: String,
    yanked: bool,
}

/// What an index entry says, at the level of views.
pub ghost struct CrateEntryView {
    pub name: Seq<char>,
    pub vers: Seq<char>,
    pub cksum: Seq<char>,
    pub yanked: bool,
}

impl View for CrateEntry {
    type V = CrateEntryView;

    closed spec fn view(&self) -> CrateEntryView {
        CrateEntryView {
            name: self.name@,
            vers: self.vers@,
            cksum: self.cksum@,
            yanked: self.yanked,
        }
    }
}

impl DeepView for CrateEntry {
    type V = CrateEntryView;

    open spec fn deep_view(&self) -> CrateEntryView {
        self.view()
    }
}

impl Clone for CrateEntry {
    fn clone(&self) -> (r: Self)
        ensures
            r@ == self@,
    {
        CrateEntry {
            name: self.name.clone(),
            vers: self.vers.clone(),
            cksum: self.cksum.clone(),
            yanked: self.yanked,
        }
    }
}

impl CrateEntry {
    pub fn new(name: String, vers: String, cksum: String, yanked: bool) -> (r: Self)
        ensures
            r@ == (CrateEntryView { name: name@, vers: vers@, cksum: cksum@, yanked }),
    {
        CrateEntry { name, vers, cksum, yanked }
    }

    pub fn get_name(&self) -> (r: &str)
        ensures
            r@ == self@.name,
    {
        self.name.as_str()
    }

    pub fn get_vers(&self) -> (r: &str)
        ensures
            r@ == self@.vers,
    {
        self.vers.as_str()
    }

    pub fn get_cksum(&self) -> (r: &str)
        ensures
            r@ == self@.cksum,
    {
        self.cksum.as_str()
    }

    pub fn get_yanked(&self) -> (r: bool)
        ensures
            r == self@.yanked,
    {
        self.yanked
    }
}

/// The shard directory an archive of this name is stored under: length 1
/// names go to `1`, length 2 to `2`, length 3 to `3/<first char>`, longer
/// names to `<first two chars>/<next two chars>`.
pub open spec fn shard_dir(name: Seq<char>) -> Seq<char>
    recommends
        name.len() >= 1,
{
    if name.len() == 1 {
        seq!['1']
    } else if name.len() == 2 {
        seq!['2']
    } else if name.len() == 3 {
        seq!['3', '/'] + name.subrange(0, 1)
    } else {
        name.subrange(0, 2) + seq!['/'] + name.subrange(2, 4)
    }
}

/// The path of an archive below the mirror root:
/// `crates/<shard>/<name>/<version>/<name>-<version>.crate`.
pub open spec fn crate_archive_subpath(name: Seq<char>, vers: Seq<char>) -> Seq<char>
    recommends
        name.len() >= 1,
{
    "crates/"@ + shard_dir(name) + "/"@ + name + "/"@ + vers + "/"@ + crate_file_name(name, vers)
}

/// The file name of an archive: `<name>-<version>.crate`.
pub open spec fn crate_file_name(name: Seq<char>, vers: Seq<char>) -> Seq<char> {
    name + "-"@ + vers + ".crate"@
}

/// Compute the canonical path of an archive, below `mirror_path` (given
/// without a trailing separator).  Every writer and every read path of the
/// store routes through this one function; names of length zero have no
/// path and are rejected.
pub fn get_crate_path(mirror_path: &str, crate_name: &str, crate_version: &str) -> (r: Option<
    String>)
    ensures
        match r {
            Some(p) => crate_name@.len() >= 1 && p@ == mirror_path@ + "/"@
                + crate_archive_subpath(crate_name@, crate_version@),
            None => crate_name@.len() == 0,
        },
{
    let n = crate_name.unicode_len();
    if n == 0 {
        return None;
    }
    let mut p = mirror_path.to_owned();
    p.append("/crates/");
    if n == 1 {
        p.append("1");
    } else if n == 2 {
        p.append("2");
    } else if n == 3 {
        p.append("3/");
        p.append(crate_name.substring_char(0, 1));
    } else {
        p.append(crate_name.substring_char(0, 2));
        p.append("/");
        p.append(crate_name.substring_char(2, 4));
    }
    p.append("/");
    p.append(crate_name);
    p.append("/");
    p.append(crate_version);
    p.append("/");
    p.append(crate_name);
    p.append("-");
    p.append(crate_version);
    p.append(".crate");
    proof {
        reveal_strlit("/crates/");
        reveal_strlit("crates/");
        reveal_strlit("/");
        reveal_strlit("1");
        reveal_strlit("2");
        reveal_strlit("3/");
        assert(p@ =~= mirror_path@ + "/"@ + crate_archive_subpath(
            crate_name@,
            crate_version@,
        ));
    }
    Some(p)
}

/// Law: at the directory level the store is sharded by name alone — the
/// archive paths of two versions of one crate agree on the whole
/// `crates/<shard>/<name>/` prefix.
pub proof fn lemma_shard_depends_on_name_only(name: Seq<char>, vers1: Seq<char>, vers2: Seq<char>)
    ensures
        ({
            let prefix_len = ("crates/"@ + shard_dir(name) + "/"@ + name + "/"@).len() as int;
            crate_archive_subpath(name, vers1).subrange(0, prefix_len)
                == crate_archive_subpath(name, vers2).subrange(0, prefix_len)
        }),
{
    let prefix = "crates/"@ + shard_dir(name) + "/"@ + name + "/"@;
    let l = prefix.len() as int;
    assert(crate_archive_subpath(name, vers1).subrange(0, l) =~= prefix);
    assert(crate_archive_subpath(name, vers2).subrange(0, l) =~= prefix);
}

/// The URL an archive is fetched from.  With a configured source the
/// redirecting `/download` endpoint is used; with none (the canonical
/// origin) the CDN form is used directly.
pub fn crate_download_url(source: Option<&str>, name: &str, vers: &str) -> (r: String)
    ensures
        match source {
            Some(s) => r@ == s@ + "/"@ + name@ + "/"@ + vers@ + "/download"@,
            None => r@ == "https://static.crates.io/crates/"@ + name@ + "/"@ + crate_file_name(
                name@,
                vers@,
            ),
        },
{
    match source {
        Some(s) => {
            let mut r = s.to_owned();
            r.append("/");
            r.append(name);
            r.append("/");
            r.append(vers);
            r.append("/download");
            proof {
                assert(r@ =~= s@ + "/"@ + name@ + "/"@ + vers@ + "/download"@);
            }
            r
        },
        None => {
            let mut r = "https://static.crates.io/crates/".to_owned();
            r.append(name);
            r.append("/");
            r.append(name);
            r.append("-");
            r.append(vers);
            r.append(".crate");
            proof {
                assert(r@ =~= "https://static.crates.io/crates/"@ + name@ + "/"@
                    + crate_file_name(name@, vers@));
            }
            r
        },
    }
}

/// Whether `s` begins with `prefix`.
pub open spec fn spec_starts_with(s: Seq<char>, prefix: Seq<char>) -> bool {
    prefix.len() <= s.len() && s.subrange(0, prefix.len() as int) == prefix
}

/// What the index diff walk does with one delta path.
pub enum DeltaAction {
    /// The embedded configuration artifact and upstream housekeeping files
    /// carry no entries and are passed over.
    Skip,
    /// The file disappeared from the index: its archives are to be deleted.
    Removed,
    /// The file's lines are to be parsed as index entries.
    Parse,
}

/// Classify one delta of the index tree diff.  `config.json` and anything
/// under `.github/` is skipped; a delta whose new object id is zero is a
/// removal; everything else is parsed.
pub fn classify_delta(path: &str, oid_is_zero: bool) -> (r: DeltaAction)
    ensures
        ({
            let skip = path@ == "config.json"@ || spec_starts_with(path@, ".github/"@);
            match r {
                DeltaAction::Skip => skip,
                DeltaAction::Removed => !skip && oid_is_zero,
                DeltaAction::Parse => !skip && !oid_is_zero,
            }
        }),
{
    proof {
        reveal_strlit("config.json");
        reveal_strlit(".github/");
    }
    let n = path.unicode_len();
    let is_config = path.to_owned() == "config.json".to_owned();
    let in_github = n >= 8 && path.substring_char(0, 8).to_owned() == ".github/".to_owned();
    proof {
        if in_github {
            assert(path@.subrange(0, 8) == ".github/"@);
        }
        if spec_starts_with(path@, ".github/"@) {
            assert(path@.subrange(0, 8) == ".github/"@);
        }
    }
    if is_config || in_github {
        DeltaAction::Skip
    } else if oid_is_zero {
        DeltaAction::Removed
    } else {
        DeltaAction::Parse
    }
}

/// The archive paths of the entries of an index file, below the mirror
/// root: what the removal step deletes from the store when the file
/// disappears from the index.  An entry with an empty name has no path,
/// as in `get_crate_path`, and yields nothing.
pub open spec fn spec_removal_paths(
    mirror: Seq<char>,
    entries: Seq<(Seq<char>, Seq<char>, Seq<char>, bool)>,
) -> Seq<Seq<char>>
    decreases entries.len(),
{
    if entries.len() == 0 {
        Seq::empty()
    } else {
        spec_removal_paths(mirror, entries.drop_last()) + (if entries.last().0.len() >= 1 {
            seq![mirror + "/"@ + crate_archive_subpath(entries.last().0, entries.last().1)]
        } else {
            Seq::empty()
        })
    }
}

/// The archive paths of the entries of a removed index file, parsed from
/// its last committed lines: exactly these files leave the store.
pub fn removal_archive_paths(mirror_path: &str, old_lines: &Vec<String>) -> (r: Vec<String>)
    ensures
        r.deep_view() == spec_removal_paths(
            mirror_path@,
            spec_entries_of_lines(old_lines.deep_view()),
        ),
{
    let ghost es = spec_entries_of_lines(old_lines.deep_view());
    let entries = entries_from_lines(old_lines);
    let mut r: Vec<String> = Vec::new();
    let mut i: usize = 0;
    proof {
        assert(es.subrange(0, 0) =~= Seq::<(Seq<char>, Seq<char>, Seq<char>, bool)>::empty());
        assert(r.deep_view() =~= spec_removal_paths(mirror_path@, es.subrange(0, 0)));
    }
    while i < entries.len()
        invariant
            i <= entries@.len(),
            entries@.len() == es.len(),
            forall|t: int|
                0 <= t < entries@.len() ==> {
                    &&& (#[trigger] entries.deep_view()[t]).name == es[t].0
                    &&& entries.deep_view()[t].vers == es[t].1
                },
            r.deep_view() == spec_removal_paths(mirror_path@, es.subrange(0, i as int)),
        decreases entries@.len() - i,
    {
        let ghost ep = es.subrange(0, i as int);
        let ghost ep1 = es.subrange(0, i + 1);
        proof {
            assert(ep1.drop_last() =~= ep);
            assert(ep1.last() == es[i as int]);
            assert(entries.deep_view()[i as int].name == es[i as int].0);
        }
        let e = &entries[i];
        match get_crate_path(mirror_path, e.get_name(), e.get_vers()) {
            Some(p) => {
                r.push(p);
            },
            None => {},
        }
        proof {
            assert(r.deep_view() =~= spec_removal_paths(mirror_path@, ep1));
        }
        i = i + 1;
    }
    proof {
        assert(es.subrange(0, es.len() as int) =~= es);
    }
    r
}

/// Whether an entry appears, by name and version, in a list of entries.
pub open spec fn spec_entry_in_list(entry: CrateEntryView, list: Seq<CrateEntry>) -> bool {
    exists|i: int|
        0 <= i < list.len() && list[i]@.name == entry.name && list[i]@.vers == entry.vers
}

/// Whether an entry appears, by name and version, in an allow-list.
pub fn entry_in_list(entry: &CrateEntry, list: &Vec<CrateEntry>) -> (r: bool)
    ensures
        r == spec_entry_in_list(entry@, list@),
{
    let mut i: usize = 0;
    while i < list.len()
        invariant
            i <= list@.len(),
            forall|j: int|
                0 <= j < i ==> !(list@[j]@.name == entry@.name && list@[j]@.vers == entry@.vers),
        decreases list@.len() - i,
    {
        let same_name = list[i].get_name().to_owned() == entry.get_name().to_owned();
        let same_vers = list[i].get_vers().to_owned() == entry.get_vers().to_owned();
        if same_name && same_vers {
            return true;
        }
        i = i + 1;
    }
    false
}

/// Whether a per-task failure is swallowed by a batch: the origin is
/// authoritative about absence, and a corrupt body already left its
/// sidecar, so neither aborts the batch.
pub fn error_is_swallowed(e: &crate::download::DownloadError) -> (r: bool)
    ensures
        r == (e is NotFound || e is MismatchedHash),
{
    match e {
        crate::download::DownloadError::NotFound { .. } => true,
        crate::download::DownloadError::MismatchedHash { .. } => true,
        _ => false,
    }
}

/// Whether every directory name under `crates/` belongs to the sharded
/// layout: the fixed shards `1`, `2`, `3`, or a two-character prefix
/// directory.  Anything else means the store is in the deprecated layout.
pub open spec fn spec_new_format_dir(d: Seq<char>) -> bool {
    d == seq!['1'] || d == seq!['2'] || d == seq!['3'] || d.len() == 2
}

/// Detect whether the archive directory names follow the sharded layout.
pub fn is_new_crates_format(dir_names: &Vec<String>) -> (r: bool)
    ensures
        r == forall|i: int| 0 <= i < dir_names@.len() ==> spec_new_format_dir(dir_names@[i]@),
{
    let mut i: usize = 0;
    while i < dir_names.len()
        invariant
            i <= dir_names@.len(),
            forall|j: int| 0 <= j < i ==> spec_new_format_dir(dir_names@[j]@),
        decreases dir_names@.len() - i,
    {
        proof {
            reveal_strlit("1");
            reveal_strlit("2");
            reveal_strlit("3");
        }
        let d = &dir_names[i];
        let ok = d.clone() == "1".to_owned() || d.clone() == "2".to_owned() || d.clone()
            == "3".to_owned() || d.as_str().unicode_len() == 2;
        proof {
            if d@ == seq!['1'] {
                assert(d@ =~= "1"@);
            }
            if d@ == seq!['2'] {
                assert(d@ =~= "2"@);
            }
            if d@ == seq!['3'] {
                assert(d@ =~= "3"@);
            }
            if d@ == "1"@ {
                assert(d@ =~= seq!['1']);
            }
            if d@ == "2"@ {
                assert(d@ =~= seq!['2']);
            }
            if d@ == "3"@ {
                assert(d@ =~= seq!['3']);
            }
        }
        if !ok {
            return false;
        }
        i = i + 1;
    }
    true
}

} // verus!
