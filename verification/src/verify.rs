//! The mirror verifier: the grammar of interactive repair input, the
//! selection it induces over the list of missing archives, and the
//! computation of which index entries lack their archive on disk.

use vstd::prelude::*;

use crate::crates::CrateEntry;
use crate::crates::CrateEntryView;
use crate::text::contains_char;
use crate::text::is_numeral;
use crate::text::numeral_val;
use crate::text::parse_usize;
use crate::text::spec_contains_char;
use crate::text::spec_split;
use crate::text::split_char;

verus! {

/// A piece of input survives parsing when it is a numeral, fits the
/// machine word, and is not the ignored index zero.
pub open spec fn keep_piece(p: Seq<char>) -> bool {
    is_numeral(p) && numeral_val(p) <= usize::MAX && numeral_val(p) != 0
}

/// The values of the pieces that survive parsing, in order.
pub open spec fn parsed_vals(ps: Seq<Seq<char>>) -> Seq<usize>
    decreases ps.len(),
{
    if ps.len() == 0 {
        Seq::empty()
    } else {
        parsed_vals(ps.drop_last()) + if keep_piece(ps.last()) {
            seq![numeral_val(ps.last()) as usize]
        } else {
            Seq::empty()
        }
    }
}

/// Every surviving value is at least one.
pub proof fn lemma_parsed_vals_pos(ps: Seq<Seq<char>>)
    ensures
        forall|i: int| 0 <= i < parsed_vals(ps).len() ==> #[trigger] parsed_vals(ps)[i] >= 1,
    decreases ps.len(),
{
    if ps.len() > 0 {
        lemma_parsed_vals_pos(ps.drop_last());
        let pre = parsed_vals(ps.drop_last());
        assert forall|i: int| 0 <= i < parsed_vals(ps).len() implies #[trigger] parsed_vals(
            ps,
        )[i] >= 1 by {
            if i < pre.len() {
                assert(parsed_vals(ps)[i] == pre[i]);
            } else {
                assert(keep_piece(ps.last()));
                assert(parsed_vals(ps)[i] == numeral_val(ps.last()) as usize);
            }
        }
    }
}

/// Parse each piece, keeping the in-range nonzero values.
fn parse_pieces(pieces: &Vec<String>) -> (r: Vec<usize>)
    ensures
        r@ == parsed_vals(pieces.deep_view()),
{
    let mut r: Vec<usize> = Vec::new();
    let mut i: usize = 0;
    proof {
        assert(pieces.deep_view().subrange(0, 0) =~= Seq::<Seq<char>>::empty());
        assert(r@ =~= parsed_vals(pieces.deep_view().subrange(0, 0)));
    }
    while i < pieces.len()
        invariant
            i <= pieces@.len(),
            r@ == parsed_vals(pieces.deep_view().subrange(0, i as int)),
        decreases pieces@.len() - i,
    {
        let ghost prefix = pieces.deep_view().subrange(0, i as int);
        let ghost prefix1 = pieces.deep_view().subrange(0, i + 1);
        proof {
            assert(prefix1.drop_last() =~= prefix);
            assert(prefix1.last() == pieces.deep_view()[i as int]);
        }
        match parse_usize(pieces[i].as_str()) {
            Some(u) => {
                if u != 0 {
                    r.push(u);
                    proof {
                        assert(r@ =~= parsed_vals(prefix1));
                    }
                } else {
                    proof {
                        assert(r@ =~= parsed_vals(prefix1));
                    }
                }
            },
            None => {
                proof {
                    assert(r@ =~= parsed_vals(prefix1));
                }
            },
        }
        i = i + 1;
    }
    proof {
        assert(pieces.deep_view().subrange(0, pieces.deep_view().len() as int)
            =~= pieces.deep_view());
    }
    r
}

/// Whether a sequence of values is sorted ascending.
pub open spec fn spec_sorted_usizes(s: Seq<usize>) -> bool {
    forall|i: int, j: int| 0 <= i < j < s.len() ==> s[i] <= s[j]
}

/// Sort values ascending.  The result is a permutation of the input.
fn sort_usizes(v: Vec<usize>) -> (r: Vec<usize>)
    ensures
        spec_sorted_usizes(r@),
        r@.to_multiset() == v@.to_multiset(),
        r@.len() == v@.len(),
{
    broadcast use vstd::seq_lib::group_to_multiset_ensures;
    broadcast use vstd::multiset::group_multiset_axioms;

    let mut rest = v;
    let mut out: Vec<usize> = Vec::new();
    proof {
        assert(out@ =~= Seq::<usize>::empty());
    }
    while rest.len() > 0
        invariant
            spec_sorted_usizes(out@),
            out@.to_multiset().add(rest@.to_multiset()) == v@.to_multiset(),
            out@.len() + rest@.len() == v@.len(),
            forall|p: int, q: int|
                0 <= p < out@.len() && 0 <= q < rest@.len() ==> out@[p] <= rest@[q],
        decreases rest@.len(),
    {
        let mut m: usize = 0;
        let mut j: usize = 1;
        while j < rest.len()
            invariant
                m < j <= rest@.len(),
                rest@.len() > 0,
                forall|t: int| 0 <= t < j ==> rest@[m as int] <= rest@[t],
            decreases rest@.len() - j,
        {
            if rest[j] < rest[m] {
                m = j;
            }
            j = j + 1;
        }
        let ghost old_rest = rest@;
        let ghost old_out = out@;
        let x = rest.remove(m);
        out.push(x);
        proof {
            let ghost xv = old_rest[m as int];
            assert(out@ =~= old_out.push(xv));
            assert(old_rest.contains(xv));
            vstd::seq_lib::to_multiset_build(old_out, xv);
            vstd::seq_lib::to_multiset_remove(old_rest, m as int);
            vstd::seq_lib::to_multiset_contains(old_rest, xv);
            assert(out@.to_multiset().add(rest@.to_multiset()) =~= v@.to_multiset());
        }
    }
    out
}

/// What a line of interactive verify input asks for: an inclusive range of
/// 1-based indices, a list of them, a single one, or nothing recognizable.
#[derive(Debug)]
pub enum Input {
    /// An inclusive range, already converted to 0-based bounds.
    Range(usize, usize),
    /// Several indices, sorted, already 0-based.
    List(Vec<usize>),
    /// One index, already 0-based.
    Usize(usize),
    /// Input that selects nothing in particular.
    Ignore,
}

fn vec_usize_eq(a: &Vec<usize>, b: &Vec<usize>) -> (r: bool)
    ensures
        r == (a@ == b@),
{
    if a.len() != b.len() {
        return false;
    }
    let mut i: usize = 0;
    while i < a.len()
        invariant
            i <= a@.len(),
            a@.len() == b@.len(),
            forall|j: int| 0 <= j < i ==> a@[j] == b@[j],
        decreases a@.len() - i,
    {
        if a[i] != b[i] {
            return false;
        }
        i = i + 1;
    }
    proof {
        assert(a@ =~= b@);
    }
    true
}

impl PartialEq for Input {
    fn eq(&self, other: &Input) -> (r: bool) {
        match (self, other) {
            (Input::Range(a, b), Input::Range(c, d)) => a == c && b == d,
            (Input::List(v), Input::List(w)) => vec_usize_eq(v, w),
            (Input::Usize(a), Input::Usize(b)) => a == b,
            (Input::Ignore, Input::Ignore) => true,
            _ => false,
        }
    }
}

/// The error type of `Input`'s string parser, which never fails: anything
/// unusable is read as `Input::Ignore`.
#[derive(Debug)]
pub struct NoParseError;

impl core::str::FromStr for Input {
    type Err = NoParseError;

    fn from_str(s: &str) -> Result<Input, NoParseError> {
        Ok(Input::parse_line(s))
    }
}

impl vstd::std_specs::cmp::PartialEqSpecImpl for Input {
    open spec fn obeys_eq_spec() -> bool {
        true
    }

    open spec fn eq_spec(&self, other: &Input) -> bool {
        match (self, other) {
            (Input::Range(a, b), Input::Range(c, d)) => a == c && b == d,
            (Input::List(v), Input::List(w)) => v@ == w@,
            (Input::Usize(a), Input::Usize(b)) => a == b,
            (Input::Ignore, Input::Ignore) => true,
            _ => false,
        }
    }
}

/// What `Input::parse_line` returns for a given line.  The list case is
/// pinned by sortedness together with the multiset of chosen values.
pub open spec fn spec_input_matches(s: Seq<char>, r: Input) -> bool {
    if s.len() == 0 {
        r is Ignore
    } else if spec_contains_char(s, ' ') && spec_contains_char(s, '-') {
        r is Ignore
    } else if spec_contains_char(s, ' ') {
        let vals = parsed_vals(spec_split(s, ' '));
        if vals.len() == 1 {
            r == Input::Usize((vals[0] - 1) as usize)
        } else if vals.len() >= 2 {
            match r {
                Input::List(v) => v@.len() == vals.len() && spec_sorted_usizes(v@)
                    && v@.to_multiset() == vals.map_values(
                    |x: usize| (x - 1) as usize,
                ).to_multiset(),
                _ => false,
            }
        } else {
            r is Ignore
        }
    } else if spec_contains_char(s, '-') {
        let vals = parsed_vals(spec_split(s, '-'));
        if vals.len() == 2 {
            if vals[0] < vals[1] {
                r == Input::Range((vals[0] - 1) as usize, (vals[1] - 1) as usize)
            } else if vals[0] == vals[1] {
                r == Input::Usize((vals[0] - 1) as usize)
            } else {
                r is Ignore
            }
        } else {
            r is Ignore
        }
    } else {
        let vals = parsed_vals(spec_split(s, ' '));
        if vals.len() == 1 {
            r == Input::Usize((vals[0] - 1) as usize)
        } else {
            r is Ignore
        }
    }
}

impl Input {
    /// Read a line of interactive input.  Anything unusable collapses to
    /// `Ignore`; all indices are converted from the 1-based presentation to
    /// 0-based, dropping zeros.
    pub fn parse_line(s: &str) -> (r: Input)
        ensures
            spec_input_matches(s@, r),
    {
        if s.is_empty() {
            return Input::Ignore;
        }
        let has_space = contains_char(s, ' ');
        let has_dash = contains_char(s, '-');
        if has_space && has_dash {
            return Input::Ignore;
        }
        if has_space {
            let pieces = split_char(s, ' ');
            let vals = parse_pieces(&pieces);
            proof {
                lemma_parsed_vals_pos(pieces.deep_view());
            }
            if vals.len() == 1 {
                Input::Usize(vals[0] - 1)
            } else if vals.len() >= 2 {
                let ghost orig = vals@;
                let mut dec: Vec<usize> = Vec::new();
                let mut i: usize = 0;
                while i < vals.len()
                    invariant
                        i <= vals@.len(),
                        vals@ == orig,
                        forall|t: int| 0 <= t < orig.len() ==> #[trigger] orig[t] >= 1,
                        dec@.len() == i,
                        forall|t: int| 0 <= t < i ==> dec@[t] == orig[t] - 1,
                    decreases vals@.len() - i,
                {
                    let x = vals[i];
                    dec.push(x - 1);
                    i = i + 1;
                }
                proof {
                    assert(dec@ =~= orig.map_values(|x: usize| (x - 1) as usize));
                }
                let sorted = sort_usizes(dec);
                Input::List(sorted)
            } else {
                Input::Ignore
            }
        } else if has_dash {
            let pieces = split_char(s, '-');
            let vals = parse_pieces(&pieces);
            proof {
                lemma_parsed_vals_pos(pieces.deep_view());
            }
            if vals.len() == 2 {
                let a = vals[0];
                let b = vals[1];
                if a < b {
                    Input::Range(a - 1, b - 1)
                } else if a == b {
                    Input::Usize(a - 1)
                } else {
                    Input::Ignore
                }
            } else {
                Input::Ignore
            }
        } else {
            let pieces = split_char(s, ' ');
            let vals = parse_pieces(&pieces);
            proof {
                lemma_parsed_vals_pos(pieces.deep_view());
            }
            if vals.len() == 1 {
                Input::Usize(vals[0] - 1)
            } else {
                Input::Ignore
            }
        }
    }

    /// What `check` decides.
    pub open spec fn spec_check(&self, length: usize) -> bool {
        match self {
            Input::Range(_, end) => *end < length,
            Input::Usize(u) => *u < length,
            Input::List(v) => forall|i: int| 0 <= i < v@.len() ==> #[trigger] v@[i] < length,
            Input::Ignore => false,
        }
    }

    /// Whether every index named by this input can index a list of the
    /// given length.
    #[verifier::loop_isolation(false)]
    pub fn check(&self, length: usize) -> (r: bool)
        ensures
            r == self.spec_check(length),
    {
        match self {
            Input::Range(_, end) => *end < length,
            Input::Usize(u) => *u < length,
            Input::List(v) => {
                let mut i: usize = 0;
                while i < v.len()
                    invariant
                        i <= v@.len(),
                        forall|j: int| 0 <= j < i ==> #[trigger] v@[j] < length,
                    decreases v@.len() - i,
                {
                    if v[i] >= length {
                        proof {
                            assert(!(v@[i as int] < length));
                            assert(self.spec_check(length) ==> v@[i as int] < length);
                        }
                        return false;
                    }
                    i = i + 1;
                }
                true
            },
            Input::Ignore => false,
        }
    }

    /// What `indices_for` returns for this input and candidate count: the
    /// empty selection when any index is out of range or the input was
    /// unusable, otherwise exactly the named indices.
    pub open spec fn spec_selected(self, n: usize, r: Seq<usize>) -> bool {
        if !self.spec_check(n) {
            r == Seq::<usize>::empty()
        } else {
            match self {
                Input::Range(start, end) => r.len() == (if start <= end {
                    end - start + 1
                } else {
                    0int
                }) && forall|i: int| 0 <= i < r.len() ==> r[i] == start + i,
                Input::Usize(u) => r == seq![u],
                Input::List(v) => r == v@,
                Input::Ignore => false,
            }
        }
    }

    /// The 0-based indices of the candidates this input asks to download,
    /// out of `n` candidates: nothing when any index is out of range or the
    /// input was unusable, otherwise exactly the named indices.
    pub fn indices_for(&self, n: usize) -> (r: Vec<usize>)
        ensures
            self.spec_selected(n, r@),
            forall|i: int| 0 <= i < r@.len() ==> #[trigger] r@[i] < n,
    {
        if !self.check(n) {
            return Vec::new();
        }
        match self {
            Input::Range(start, end) => {
                let mut r: Vec<usize> = Vec::new();
                let mut i: usize = *start;
                if i > *end {
                    return r;
                }
                while i <= *end
                    invariant
                        *start <= i <= *end + 1,
                        *end < n,
                        r@.len() == i - *start,
                        forall|t: int| 0 <= t < r@.len() ==> r@[t] == *start + t,
                    decreases *end + 1 - i,
                {
                    r.push(i);
                    i = i + 1;
                }
                r
            },
            Input::Usize(u) => {
                let mut r: Vec<usize> = Vec::new();
                r.push(*u);
                proof {
                    assert(r@ =~= seq![*u]);
                }
                r
            },
            Input::List(v) => {
                let mut r: Vec<usize> = Vec::new();
                let mut i: usize = 0;
                while i < v.len()
                    invariant
                        i <= v@.len(),
                        r@ =~= v@.subrange(0, i as int),
                        forall|j: int| 0 <= j < v@.len() ==> #[trigger] v@[j] < n,
                    decreases v@.len() - i,
                {
                    r.push(v[i]);
                    proof {
                        assert(r@ =~= v@.subrange(0, i + 1));
                    }
                    i = i + 1;
                }
                proof {
                    assert(v@.subrange(0, v@.len() as int) =~= v@);
                }
                r
            },
            Input::Ignore => Vec::new(),
        }
    }
}

/// The indices a line of interactive input selects, out of `n`
/// candidates: an empty line selects all of them; an unusable line, the
/// ignored index zero, or any index out of range selects none; otherwise
/// exactly the indices the line names, 0-based.
pub fn selected_indices(line: &str, n: usize) -> (r: Vec<usize>)
    ensures
        line@.len() == 0 ==> r@.len() == n && (forall|i: int|
            0 <= i < r@.len() ==> #[trigger] r@[i] == i),
        line@.len() != 0 ==> exists|inp: Input|
            #[trigger] spec_input_matches(line@, inp) && inp.spec_selected(n, r@),
        forall|i: int| 0 <= i < r@.len() ==> #[trigger] r@[i] < n,
{
    if line.is_empty() {
        let mut r: Vec<usize> = Vec::new();
        let mut i: usize = 0;
        while i < n
            invariant
                i <= n,
                r@.len() == i,
                forall|t: int| 0 <= t < i ==> #[trigger] r@[t] == t,
            decreases n - i,
        {
            r.push(i);
            i = i + 1;
        }
        r
    } else {
        let input = Input::parse_line(line);
        let r = input.indices_for(n);
        proof {
            let ghost iv = input;
            assert(spec_input_matches(line@, iv) && iv.spec_selected(n, r@));
        }
        r
    }
}

/// Pick the entries at the given indices, in order.
pub fn select_entries(entries: &Vec<CrateEntry>, indices: &Vec<usize>) -> (r: Vec<CrateEntry>)
    requires
        forall|i: int| 0 <= i < indices@.len() ==> #[trigger] indices@[i] < entries@.len(),
    ensures
        r@.len() == indices@.len(),
        forall|i: int| 0 <= i < r@.len() ==> #[trigger] r@[i]@ == entries@[indices@[i] as int]@,
{
    let mut r: Vec<CrateEntry> = Vec::new();
    let mut i: usize = 0;
    while i < indices.len()
        invariant
            i <= indices@.len(),
            forall|t: int| 0 <= t < indices@.len() ==> #[trigger] indices@[t] < entries@.len(),
            r@.len() == i,
            forall|t: int| 0 <= t < i ==> #[trigger] r@[t]@ == entries@[indices@[t] as int]@,
        decreases indices@.len() - i,
    {
        r.push(entries[indices[i]].clone());
        i = i + 1;
    }
    r
}

/// Whether `(name, vers)` appears in a list of name/version pairs.
pub open spec fn spec_pair_in_list(name: Seq<char>, vers: Seq<char>, list: Seq<
    (String, String)>) -> bool {
    exists|i: int| 0 <= i < list.len() && list[i].0@ == name && list[i].1@ == vers
}

/// Whether `(name, vers)` appears in a list of name/version pairs.
pub fn pair_in_list(name: &str, vers: &str, list: &Vec<(String, String)>) -> (r: bool)
    ensures
        r == spec_pair_in_list(name@, vers@, list@),
{
    let mut i: usize = 0;
    while i < list.len()
        invariant
            i <= list@.len(),
            forall|j: int| 0 <= j < i ==> !(list@[j].0@ == name@ && list@[j].1@ == vers@),
        decreases list@.len() - i,
    {
        let same_name = list[i].0.clone() == name.to_owned();
        let same_vers = list[i].1.clone() == vers.to_owned();
        if same_name && same_vers {
            return true;
        }
        i = i + 1;
    }
    false
}

/// Whether one index entry counts as missing from the mirror: its archive
/// is absent, it is not exempt (known to be withheld at the origin), it is
/// not yanked unless yanked entries are included, and it passes the
/// allow-list when one is given.
pub open spec fn spec_entry_missing(
    e: CrateEntryView,
    present: bool,
    include_yanked: bool,
    allowlist: Option<Seq<(String, String)>>,
    exempt: Seq<(String, String)>,
) -> bool {
    &&& !present
    &&& (include_yanked || !e.yanked)
    &&& match allowlist {
        Some(l) => spec_pair_in_list(e.name, e.vers, l),
        None => true,
    }
    &&& !spec_pair_in_list(e.name, e.vers, exempt)
}

/// The entries counted missing, in index order.
pub open spec fn spec_missing_list(
    entries: Seq<CrateEntry>,
    present: Seq<bool>,
    include_yanked: bool,
    allowlist: Option<Seq<(String, String)>>,
    exempt: Seq<(String, String)>,
) -> Seq<CrateEntryView>
    decreases entries.len(),
{
    if entries.len() == 0 {
        Seq::empty()
    } else {
        spec_missing_list(
            entries.drop_last(),
            present.drop_last(),
            include_yanked,
            allowlist,
            exempt,
        ) + if spec_entry_missing(
            entries.last()@,
            present.last(),
            include_yanked,
            allowlist,
            exempt,
        ) {
            seq![entries.last()@]
        } else {
            Seq::empty()
        }
    }
}

/// Law: on a fully synced mirror — every archive present — the verifier
/// finds nothing missing.
pub proof fn lemma_synced_mirror_nothing_missing(
    entries: Seq<CrateEntry>,
    present: Seq<bool>,
    include_yanked: bool,
    allowlist: Option<Seq<(String, String)>>,
    exempt: Seq<(String, String)>,
)
    requires
        present.len() == entries.len(),
        forall|i: int| 0 <= i < present.len() ==> #[trigger] present[i],
    ensures
        spec_missing_list(entries, present, include_yanked, allowlist, exempt) == Seq::<
            CrateEntryView,
        >::empty(),
    decreases entries.len(),
{
    if entries.len() > 0 {
        lemma_synced_mirror_nothing_missing(
            entries.drop_last(),
            present.drop_last(),
            include_yanked,
            allowlist,
            exempt,
        );
        assert(spec_missing_list(entries, present, include_yanked, allowlist, exempt) =~= Seq::<
            CrateEntryView,
        >::empty());
    }
}

/// Cross-check the index against the archive store: `present[i]` reports
/// whether the archive of `entries[i]` exists on disk.
pub fn missing_entries(
    entries: &Vec<CrateEntry>,
    present: &Vec<bool>,
    include_yanked: bool,
    allowlist: Option<&Vec<(String, String)>>,
    exempt: &Vec<(String, String)>,
) -> (r: Vec<CrateEntry>)
    requires
        present@.len() == entries@.len(),
    ensures
        r.deep_view() == spec_missing_list(
            entries@,
            present@,
            include_yanked,
            match allowlist {
                Some(l) => Some(l@),
                None => None,
            },
            exempt@,
        ),
{
    let ghost al: Option<Seq<(String, String)>> = match allowlist {
        Some(l) => Some(l@),
        None => None,
    };
    let mut r: Vec<CrateEntry> = Vec::new();
    let mut i: usize = 0;
    proof {
        assert(entries@.subrange(0, 0) =~= Seq::<CrateEntry>::empty());
        assert(r.deep_view() =~= spec_missing_list(
            entries@.subrange(0, 0),
            present@.subrange(0, 0),
            include_yanked,
            al,
            exempt@,
        ));
    }
    while i < entries.len()
        invariant
            i <= entries@.len(),
            present@.len() == entries@.len(),
            al == match allowlist {
                Some(l) => Some(l@),
                None => None,
            },
            r.deep_view() == spec_missing_list(
                entries@.subrange(0, i as int),
                present@.subrange(0, i as int),
                include_yanked,
                al,
                exempt@,
            ),
        decreases entries@.len() - i,
    {
        let ghost ep = entries@.subrange(0, i as int);
        let ghost pp = present@.subrange(0, i as int);
        let ghost ep1 = entries@.subrange(0, i + 1);
        let ghost pp1 = present@.subrange(0, i + 1);
        proof {
            assert(ep1.drop_last() =~= ep);
            assert(pp1.drop_last() =~= pp);
            assert(ep1.last() == entries@[i as int]);
            assert(pp1.last() == present@[i as int]);
        }
        let e = &entries[i];
        let mut is_missing = !present[i];
        if !include_yanked && e.get_yanked() {
            is_missing = false;
        }
        match allowlist {
            Some(l) => {
                if !pair_in_list(e.get_name(), e.get_vers(), l) {
                    is_missing = false;
                }
            },
            None => {},
        }
        if pair_in_list(e.get_name(), e.get_vers(), exempt) {
            is_missing = false;
        }
        let ghost before = r.deep_view();
        if is_missing {
            r.push(e.clone());
        }
        proof {
            assert(is_missing == spec_entry_missing(
                entries@[i as int]@,
                present@[i as int],
                include_yanked,
                al,
                exempt@,
            ));
            assert(r.deep_view() =~= spec_missing_list(ep1, pp1, include_yanked, al, exempt@));
        }
        i = i + 1;
    }
    proof {
        assert(entries@.subrange(0, entries@.len() as int) =~= entries@);
        assert(present@.subrange(0, present@.len() as int) =~= present@);
    }
    r
}

} // verus!
