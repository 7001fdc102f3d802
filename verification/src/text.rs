//! Character-level text utilities the mirror's grammars are built on:
//! separator splitting, decimal numerals, lexicographic order and sorting.

use vstd::prelude::*;

verus! {

/// Whether `c` occurs in `s`.
pub open spec fn spec_contains_char(s: Seq<char>, c: char) -> bool {
    exists|i: int| 0 <= i < s.len() && s[i] == c
}

/// Whether `c` occurs in `s`.
pub fn contains_char(s: &str, c: char) -> (r: bool)
    ensures
        r == spec_contains_char(s@, c),
{
    let n = s.unicode_len();
    let mut i: usize = 0;
    while i < n
        invariant
            i <= n,
            n == s@.len(),
            forall|j: int| 0 <= j < i ==> s@[j] != c,
        decreases n - i,
    {
        if s.get_char(i) == c {
            return true;
        }
        i = i + 1;
    }
    false
}

/// Splitting, accumulated piece by piece: `cur` is the piece being read,
/// `acc` the pieces already cut.
pub open spec fn split_rec(s: Seq<char>, sep: char, cur: Seq<char>, acc: Seq<Seq<char>>) -> Seq<
    Seq<char>,
>
    decreases s.len(),
{
    if s.len() == 0 {
        acc.push(cur)
    } else if s[0] == sep {
        split_rec(s.drop_first(), sep, Seq::empty(), acc.push(cur))
    } else {
        split_rec(s.drop_first(), sep, cur.push(s[0]), acc)
    }
}

/// The pieces of `s` between occurrences of `sep`; empty pieces are kept,
/// and an empty string yields one empty piece.
pub open spec fn spec_split(s: Seq<char>, sep: char) -> Seq<Seq<char>> {
    split_rec(s, sep, Seq::empty(), Seq::empty())
}

/// Split `s` at every occurrence of `sep`.
pub fn split_char(s: &str, sep: char) -> (r: Vec<String>)
    ensures
        r.deep_view() == spec_split(s@, sep),
{
    let n = s.unicode_len();
    let mut pieces: Vec<String> = Vec::new();
    let mut start: usize = 0;
    let mut i: usize = 0;
    proof {
        assert(pieces.deep_view() =~= Seq::<Seq<char>>::empty());
        assert(s@.subrange(0, n as int) =~= s@);
        assert(s@.subrange(0, 0) =~= Seq::<char>::empty());
    }
    while i < n
        invariant
            start <= i <= n,
            n == s@.len(),
            split_rec(
                s@.subrange(i as int, n as int),
                sep,
                s@.subrange(start as int, i as int),
                pieces.deep_view(),
            ) == spec_split(s@, sep),
        decreases n - i,
    {
        let ghost old_rem = s@.subrange(i as int, n as int);
        let ghost old_cur = s@.subrange(start as int, i as int);
        let ghost old_acc = pieces.deep_view();
        let c = s.get_char(i);
        proof {
            assert(old_rem[0] == s@[i as int]);
            assert(old_rem.drop_first() =~= s@.subrange(i + 1, n as int));
        }
        if c == sep {
            let piece = s.substring_char(start, i).to_owned();
            pieces.push(piece);
            start = i + 1;
            proof {
                assert(pieces.deep_view() =~= old_acc.push(old_cur));
                assert(s@.subrange(start as int, i + 1) =~= Seq::<char>::empty());
            }
        } else {
            proof {
                assert(s@.subrange(start as int, i + 1) =~= old_cur.push(s@[i as int]));
            }
        }
        i = i + 1;
    }
    let last = s.substring_char(start, n).to_owned();
    pieces.push(last);
    proof {
        assert(s@.subrange(n as int, n as int) =~= Seq::<char>::empty());
    }
    pieces
}

/// The pieces, joined back with `/` between them.
pub open spec fn join_slash(ps: Seq<Seq<char>>) -> Seq<char>
    decreases ps.len(),
{
    if ps.len() == 0 {
        Seq::empty()
    } else if ps.len() == 1 {
        ps[0]
    } else {
        join_slash(ps.drop_last()) + seq!['/'] + ps.last()
    }
}

/// Whether `c` is a decimal digit.
pub open spec fn spec_is_digit(c: char) -> bool {
    48 <= c as u32 && c as u32 <= 57
}

/// The value of a digit character.
pub open spec fn digit_val(c: char) -> nat {
    (c as u32 - 48) as nat
}

/// Whether every character of `s` is a decimal digit.
pub open spec fn all_digits(s: Seq<char>) -> bool {
    forall|i: int| 0 <= i < s.len() ==> spec_is_digit(s[i])
}

/// The value of a digit string, most significant digit first.
pub open spec fn dec_val(s: Seq<char>) -> nat
    decreases s.len(),
{
    if s.len() == 0 {
        0
    } else {
        dec_val(s.drop_last()) * 10 + digit_val(s.last())
    }
}

/// The digits of a numeral, with an optional leading `+` removed.
pub open spec fn numeral_body(s: Seq<char>) -> Seq<char> {
    if s.len() > 0 && s[0] == '+' {
        s.drop_first()
    } else {
        s
    }
}

/// Whether `s` is a decimal numeral as the standard library's unsigned
/// parser accepts it: an optional `+`, then one or more digits.
pub open spec fn is_numeral(s: Seq<char>) -> bool {
    numeral_body(s).len() > 0 && all_digits(numeral_body(s))
}

/// The value of a numeral.
pub open spec fn numeral_val(s: Seq<char>) -> nat {
    dec_val(numeral_body(s))
}

proof fn lemma_dec_val_prefix_le(t: Seq<char>, k: int)
    requires
        0 <= k <= t.len(),
    ensures
        dec_val(t.subrange(0, k)) <= dec_val(t),
    decreases t.len() - k,
{
    if k == t.len() {
        assert(t.subrange(0, k) =~= t);
    } else {
        let a = t.subrange(0, k);
        let b = t.subrange(0, k + 1);
        assert(b.drop_last() =~= a);
        assert(dec_val(b) == dec_val(a) * 10 + digit_val(b.last()));
        assert(dec_val(a) * 10 >= dec_val(a));
        lemma_dec_val_prefix_le(t, k + 1);
    }
}

/// Parse a decimal numeral the way the standard library's `usize` parser
/// does: `None` on anything malformed and on overflow.
pub fn parse_usize(s: &str) -> (r: Option<usize>)
    ensures
        match r {
            Some(v) => is_numeral(s@) && numeral_val(s@) == v,
            None => !is_numeral(s@) || numeral_val(s@) > usize::MAX,
        },
{
    let n = s.unicode_len();
    let mut start: usize = 0;
    if n > 0 && s.get_char(0) == '+' {
        start = 1;
    }
    let ghost body = numeral_body(s@);
    proof {
        assert(body =~= s@.subrange(start as int, n as int));
    }
    if start == n {
        return None;
    }
    let mut acc: usize = 0;
    let mut i: usize = start;
    proof {
        assert(body.subrange(0, 0) =~= Seq::<char>::empty());
    }
    while i < n
        invariant
            start <= i <= n,
            n == s@.len(),
            body == numeral_body(s@),
            body == s@.subrange(start as int, n as int),
            all_digits(body.subrange(0, i - start)),
            acc == dec_val(body.subrange(0, i - start)),
        decreases n - i,
    {
        let c = s.get_char(i);
        let cu = c as u32;
        proof {
            assert(body[i - start] == s@[i as int]);
        }
        if cu < 48 || cu > 57 {
            proof {
                assert(!spec_is_digit(body[i - start]));
            }
            return None;
        }
        let d = (cu - 48) as usize;
        let ghost prefix = body.subrange(0, i - start);
        let ghost prefix1 = body.subrange(0, i - start + 1);
        proof {
            assert(prefix1.drop_last() =~= prefix);
            assert(prefix1.last() == body[i - start]);
            assert(dec_val(prefix1) == dec_val(prefix) * 10 + digit_val(body[i - start]));
        }
        let step = match acc.checked_mul(10) {
            Some(a) => a.checked_add(d),
            None => None,
        };
        match step {
            Some(next) => {
                acc = next;
            },
            None => {
                proof {
                    assert(dec_val(prefix1) > usize::MAX);
                    lemma_dec_val_prefix_le(body, i - start + 1);
                }
                return None;
            },
        }
        i = i + 1;
    }
    proof {
        assert(body.subrange(0, n - start) =~= body);
    }
    Some(acc)
}

/// Lexicographic order on character sequences, by code point; agrees with
/// the standard library's string order.
pub open spec fn lex_le(a: Seq<char>, b: Seq<char>) -> bool
    decreases a.len(),
{
    if a.len() == 0 {
        true
    } else if b.len() == 0 {
        false
    } else if (a[0] as u32) < (b[0] as u32) {
        true
    } else if (b[0] as u32) < (a[0] as u32) {
        false
    } else {
        lex_le(a.drop_first(), b.drop_first())
    }
}

/// Lexicographic order is total.
pub proof fn lemma_lex_total(a: Seq<char>, b: Seq<char>)
    ensures
        lex_le(a, b) || lex_le(b, a),
    decreases a.len(),
{
    if a.len() > 0 && b.len() > 0 && a[0] as u32 == b[0] as u32 {
        lemma_lex_total(a.drop_first(), b.drop_first());
    }
}

/// Lexicographic order is transitive.
pub proof fn lemma_lex_trans(a: Seq<char>, b: Seq<char>, c: Seq<char>)
    requires
        lex_le(a, b),
        lex_le(b, c),
    ensures
        lex_le(a, c),
    decreases a.len(),
{
    if a.len() == 0 {
    } else if b.len() == 0 {
    } else if c.len() == 0 {
    } else {
        if a[0] as u32 == b[0] as u32 && b[0] as u32 == c[0] as u32 {
            lemma_lex_trans(a.drop_first(), b.drop_first(), c.drop_first());
        }
    }
}

/// Lexicographic order embeds equality.
pub proof fn lemma_lex_refl(a: Seq<char>)
    ensures
        lex_le(a, a),
    decreases a.len(),
{
    if a.len() > 0 {
        lemma_lex_refl(a.drop_first());
    }
}

/// Compare two strings in lexicographic order.
pub fn str_lex_le(a: &str, b: &str) -> (r: bool)
    ensures
        r == lex_le(a@, b@),
{
    let na = a.unicode_len();
    let nb = b.unicode_len();
    let mut i: usize = 0;
    proof {
        assert(a@.subrange(0, na as int) =~= a@);
        assert(b@.subrange(0, nb as int) =~= b@);
    }
    while i < na && i < nb
        invariant
            i <= na,
            i <= nb,
            na == a@.len(),
            nb == b@.len(),
            lex_le(a@, b@) == lex_le(
                a@.subrange(i as int, na as int),
                b@.subrange(i as int, nb as int),
            ),
        decreases na - i,
    {
        let ghost ra = a@.subrange(i as int, na as int);
        let ghost rb = b@.subrange(i as int, nb as int);
        let ca = a.get_char(i) as u32;
        let cb = b.get_char(i) as u32;
        proof {
            assert(ra[0] == a@[i as int]);
            assert(rb[0] == b@[i as int]);
            assert(ra.drop_first() =~= a@.subrange(i + 1, na as int));
            assert(rb.drop_first() =~= b@.subrange(i + 1, nb as int));
        }
        if ca < cb {
            return true;
        }
        if cb < ca {
            return false;
        }
        i = i + 1;
    }
    proof {
        if i == na {
            assert(a@.subrange(i as int, na as int) =~= Seq::<char>::empty());
        }
        if i == nb {
            assert(b@.subrange(i as int, nb as int) =~= Seq::<char>::empty());
        }
    }
    na <= nb
}

/// Whether a sequence of strings is sorted by `lex_le`, descending when
/// `descending` is set.
pub open spec fn spec_sorted(s: Seq<Seq<char>>, descending: bool) -> bool {
    forall|i: int, j: int|
        0 <= i < j < s.len() ==> if descending {
            lex_le(s[j], s[i])
        } else {
            lex_le(s[i], s[j])
        }
}

/// Sort strings by lexicographic order, ascending or descending.  The
/// result is a permutation of the input.
pub fn sort_strings(v: &Vec<String>, descending: bool) -> (r: Vec<String>)
    ensures
        spec_sorted(r.deep_view(), descending),
        r.deep_view().to_multiset() == v.deep_view().to_multiset(),
        r@.len() == v@.len(),
{
    broadcast use vstd::seq_lib::group_to_multiset_ensures;
    broadcast use vstd::multiset::group_multiset_axioms;

    let mut rest: Vec<String> = Vec::new();
    let mut k: usize = 0;
    while k < v.len()
        invariant
            k <= v@.len(),
            rest@.len() == k,
            forall|i: int| 0 <= i < k as int ==> rest@[i]@ == v@[i]@,
        decreases v@.len() - k,
    {
        rest.push(v[k].clone());
        k = k + 1;
    }
    proof {
        assert forall|i: int| 0 <= i < rest@.len() implies rest.deep_view()[i]
            == v.deep_view()[i] by {
            assert(rest@[i]@ == v@[i]@);
        }
        assert(rest.deep_view() =~= v.deep_view());
    }
    let mut out: Vec<String> = Vec::new();
    proof {
        assert(out.deep_view() =~= Seq::<Seq<char>>::empty());
        assert(out.deep_view().to_multiset().add(rest.deep_view().to_multiset())
            =~= v.deep_view().to_multiset());
    }
    while rest.len() > 0
        invariant
            spec_sorted(out.deep_view(), descending),
            out.deep_view().to_multiset().add(rest.deep_view().to_multiset())
                == v.deep_view().to_multiset(),
            out@.len() + rest@.len() == v@.len(),
            forall|p: int, q: int|
                0 <= p < out.deep_view().len() && 0 <= q < rest.deep_view().len() ==> if descending {
                    lex_le(rest.deep_view()[q], out.deep_view()[p])
                } else {
                    lex_le(out.deep_view()[p], rest.deep_view()[q])
                },
        decreases rest@.len(),
    {
        // Find the extremal remaining string: the greatest when sorting
        // descending, the least when ascending.
        let mut m: usize = 0;
        let mut j: usize = 1;
        proof {
            lemma_lex_refl(rest.deep_view()[0]);
        }
        while j < rest.len()
            invariant
                m < j <= rest@.len(),
                rest@.len() > 0,
                forall|t: int|
                    0 <= t < j ==> if descending {
                        lex_le(rest.deep_view()[t], rest.deep_view()[m as int])
                    } else {
                        lex_le(rest.deep_view()[m as int], rest.deep_view()[t])
                    },
            decreases rest@.len() - j,
        {
            let better = if descending {
                !str_lex_le(rest[j].as_str(), rest[m].as_str())
            } else {
                !str_lex_le(rest[m].as_str(), rest[j].as_str())
            };
            proof {
                lemma_lex_total(rest.deep_view()[j as int], rest.deep_view()[m as int]);
                lemma_lex_refl(rest.deep_view()[j as int]);
                if better {
                    assert forall|t: int| 0 <= t < j implies (if descending {
                        lex_le(rest.deep_view()[t], rest.deep_view()[j as int])
                    } else {
                        lex_le(rest.deep_view()[j as int], rest.deep_view()[t])
                    }) by {
                        if descending {
                            lemma_lex_trans(
                                rest.deep_view()[t],
                                rest.deep_view()[m as int],
                                rest.deep_view()[j as int],
                            );
                        } else {
                            lemma_lex_trans(
                                rest.deep_view()[j as int],
                                rest.deep_view()[m as int],
                                rest.deep_view()[t],
                            );
                        }
                    }
                }
            }
            if better {
                m = j;
            }
            j = j + 1;
        }
        let ghost old_rest = rest.deep_view();
        let ghost old_out = out.deep_view();
        let x = rest.remove(m);
        out.push(x);
        proof {
            assert(rest.deep_view() =~= old_rest.remove(m as int));
            assert(out.deep_view() =~= old_out.push(old_rest[m as int]));
            let ghost xv = old_rest[m as int];
            assert(old_rest.contains(xv));
            vstd::seq_lib::to_multiset_build(old_out, xv);
            vstd::seq_lib::to_multiset_remove(old_rest, m as int);
            vstd::seq_lib::to_multiset_contains(old_rest, xv);
            assert(out.deep_view().to_multiset() == old_out.to_multiset().insert(xv));
            assert(rest.deep_view().to_multiset() == old_rest.to_multiset().remove(xv));
            assert(old_rest.to_multiset().count(xv) > 0);
            assert(out.deep_view().to_multiset().add(rest.deep_view().to_multiset())
                =~= v.deep_view().to_multiset());
            assert forall|p: int, q: int|
                0 <= p < out.deep_view().len() && 0 <= q
                    < rest.deep_view().len() implies (if descending {
                lex_le(rest.deep_view()[q], out.deep_view()[p])
            } else {
                lex_le(out.deep_view()[p], rest.deep_view()[q])
            }) by {
                let rq = rest.deep_view()[q];
                assert(rest.deep_view()[q] == if q < m {
                    old_rest[q]
                } else {
                    old_rest[q + 1]
                });
            }
        }
    }
    out
}

} // verus!
