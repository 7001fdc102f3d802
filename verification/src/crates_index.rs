//! The index repository's embedded configuration artifact: the exact bytes
//! the mirror writes into `config.json` before committing it onto the
//! local branch.

use vstd::prelude::*;

verus! {

/// A string as it stands inside a JSON string literal: quotes and
/// backslashes escaped.
pub open spec fn spec_json_escaped(s: Seq<char>) -> Seq<char>
    decreases s.len(),
{
    if s.len() == 0 {
        Seq::empty()
    } else {
        spec_json_escaped(s.drop_last()) + (if s.last() == '"' {
            seq!['\\', '"']
        } else if s.last() == '\\' {
            seq!['\\', '\\']
        } else {
            seq![s.last()]
        })
    }
}

/// Escape a string for use inside a JSON string literal.  Control
/// characters are left to the caller to exclude; a URL never carries one.
pub fn json_escape(s: &str) -> (r: String)
    ensures
        r@ == spec_json_escaped(s@),
{
    let n = s.unicode_len();
    let mut r = String::new();
    let mut i: usize = 0;
    proof {
        assert(s@.subrange(0, 0) =~= Seq::<char>::empty());
        assert(r@ =~= spec_json_escaped(s@.subrange(0, 0)));
    }
    while i < n
        invariant
            i <= n,
            n == s@.len(),
            r@ == spec_json_escaped(s@.subrange(0, i as int)),
        decreases n - i,
    {
        let ghost sp = s@.subrange(0, i as int);
        let ghost sp1 = s@.subrange(0, i + 1);
        proof {
            assert(sp1.drop_last() =~= sp);
            assert(sp1.last() == s@[i as int]);
        }
        let c = s.get_char(i);
        if c == '"' {
            r.append("\\\"");
            proof {
                reveal_strlit("\\\"");
                assert(r@ =~= spec_json_escaped(sp1));
            }
        } else if c == '\\' {
            r.append("\\\\");
            proof {
                reveal_strlit("\\\\");
                assert(r@ =~= spec_json_escaped(sp1));
            }
        } else {
            r.append(s.substring_char(i, i + 1));
            proof {
                assert(r@ =~= spec_json_escaped(sp1));
            }
        }
        i = i + 1;
    }
    proof {
        assert(s@.subrange(0, n as int) =~= s@);
    }
    r
}

/// The bytes of the index's embedded `config.json` for a mirror served at
/// `base_url`: `dl` points clients at the condensed archive layout and
/// `api` at the mirror itself.  Rewriting with the same `base_url` yields
/// the same bytes; the commit carrying them is expected to be overwritten
/// by the next fast-forward.
pub fn config_json_contents(base_url: &str) -> (r: String)
    ensures
        r@ == "{\n  \"dl\": \""@ + spec_json_escaped(base_url@)
            + "/{crate}/{crate}-{version}.crate\",\n  \"api\": \""@ + spec_json_escaped(base_url@)
            + "\"\n}"@,
{
    let escaped = json_escape(base_url);
    let mut r = "{\n  \"dl\": \"".to_owned();
    r.append(escaped.as_str());
    r.append("/{crate}/{crate}-{version}.crate\",\n  \"api\": \"");
    r.append(escaped.as_str());
    r.append("\"\n}");
    proof {
        assert(r@ =~= "{\n  \"dl\": \""@ + spec_json_escaped(base_url@)
            + "/{crate}/{crate}-{version}.crate\",\n  \"api\": \""@ + spec_json_escaped(base_url@)
            + "\"\n}"@);
    }
    r
}

} // verus!
