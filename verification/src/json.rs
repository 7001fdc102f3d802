//! The grammar of index entry lines.  An index file carries one JSON
//! object per line; of each object the mirror reads the fields `name`,
//! `vers`, `cksum` and `yanked` and passes over the rest.  A line that
//! does not fit the grammar is skipped, never fatal.
//!
//! The grammar is this module's own, spelled out by its spec functions:
//! strings know the single-character escapes and `\u` escapes of plain
//! scalar values (a lone surrogate half rejects the line, as do raw
//! control characters); values that are passed over are skipped by
//! bracket counting; a duplicate or missing needed field rejects the
//! line.

use vstd::prelude::*;

use crate::crates::CrateEntry;

verus! {

/// The whitespace of the grammar.
pub open spec fn spec_is_ws(c: char) -> bool {
    c == ' ' || c == '\t' || c == '\r' || c == '\n'
}

/// The first index at or after `i` holding something other than
/// whitespace.
pub open spec fn spec_skip_ws(s: Seq<char>, i: int) -> int
    decreases s.len() - i,
{
    if i < 0 || i >= s.len() {
        i
    } else if spec_is_ws(s[i]) {
        spec_skip_ws(s, i + 1)
    } else {
        i
    }
}

proof fn lemma_skip_ws_range(s: Seq<char>, i: int)
    requires
        0 <= i <= s.len(),
    ensures
        i <= spec_skip_ws(s, i) <= s.len(),
    decreases s.len() - i,
{
    if i < s.len() && spec_is_ws(s[i]) {
        lemma_skip_ws_range(s, i + 1);
    }
}

fn skip_ws(s: &str, i: usize) -> (r: usize)
    requires
        i <= s@.len(),
    ensures
        r == spec_skip_ws(s@, i as int),
        i <= r <= s@.len(),
{
    let n = s.unicode_len();
    let mut j = i;
    while j < n
        invariant
            i <= j <= n,
            n == s@.len(),
            spec_skip_ws(s@, i as int) == spec_skip_ws(s@, j as int),
        decreases n - j,
    {
        let c = s.get_char(j);
        if !(c == ' ' || c == '\t' || c == '\r' || c == '\n') {
            return j;
        }
        j = j + 1;
    }
    j
}

/// What a single-character backslash escape stands for; `None` for
/// everything else (`\u` escapes are read by the string rule itself).
pub open spec fn spec_escape(c: char) -> Option<char> {
    if c == '"' {
        Some('"')
    } else if c == '\\' {
        Some('\\')
    } else if c == '/' {
        Some('/')
    } else if c == 'b' {
        Some('\u{0008}')
    } else if c == 'f' {
        Some('\u{000C}')
    } else if c == 'n' {
        Some('\n')
    } else if c == 'r' {
        Some('\r')
    } else if c == 't' {
        Some('\t')
    } else {
        None
    }
}

/// The value of a hexadecimal digit, or a negative number for anything
/// else.
pub open spec fn spec_hex_val(c: char) -> int {
    let u = c as u32;
    if 48 <= u && u <= 57 {
        u - 48
    } else if 97 <= u && u <= 102 {
        u - 87
    } else if 65 <= u && u <= 70 {
        u - 55
    } else {
        -1
    }
}

/// What a `\uXXXX` escape stands for: the scalar value the four hex
/// digits name.  A surrogate half is no scalar and is rejected.
pub open spec fn spec_unicode_escape(a: char, b: char, c: char, d: char) -> Option<char> {
    if spec_hex_val(a) < 0 || spec_hex_val(b) < 0 || spec_hex_val(c) < 0 || spec_hex_val(d) < 0 {
        None
    } else {
        let code = spec_hex_val(a) * 4096 + spec_hex_val(b) * 256 + spec_hex_val(c) * 16
            + spec_hex_val(d);
        if 0xD800 <= code && code <= 0xDFFF {
            None
        } else {
            Some(((code as u32) as char))
        }
    }
}

/// Relies on char::from_u32: it returns the character with the given
/// scalar value, and `None` exactly for surrogates and values beyond the
/// scalar range, as its documentation states.
pub assume_specification[ char::from_u32 ](i: u32) -> (r: Option<char>)
    ensures
        match r {
            Some(c) => c as u32 == i,
            None => (0xD800 <= i && i <= 0xDFFF) || i > 0x10FFFF,
        },
        r is Some <==> !((0xD800 <= i && i <= 0xDFFF) || i > 0x10FFFF),
;

/// Relies on String::push: it appends exactly the given character.
#[verifier::external_body]
fn push_char(s: &mut String, c: char)
    ensures
        final(s)@ == old(s)@.push(c),
{
    s.push(c);
}

/// Read a string body from just after its opening quote: the unescaped
/// characters, and the index just after the closing quote.
pub open spec fn spec_string_body(s: Seq<char>, i: int) -> Option<(Seq<char>, int)>
    decreases s.len() - i,
{
    if i < 0 || i >= s.len() {
        None
    } else if s[i] == '"' {
        Some((Seq::empty(), i + 1))
    } else if s[i] == '\\' {
        if i + 1 >= s.len() {
            None
        } else {
            match spec_escape(s[i + 1]) {
                Some(c) => match spec_string_body(s, i + 2) {
                    Some(p) => Some((seq![c] + p.0, p.1)),
                    None => None,
                },
                None => if s[i + 1] == 'u' {
                    if i + 6 > s.len() {
                        None
                    } else {
                        match spec_unicode_escape(s[i + 2], s[i + 3], s[i + 4], s[i + 5]) {
                            Some(c) => match spec_string_body(s, i + 6) {
                                Some(p) => Some((seq![c] + p.0, p.1)),
                                None => None,
                            },
                            None => None,
                        }
                    }
                } else {
                    None
                },
            }
        }
    } else if (s[i] as u32) < 32 {
        None
    } else {
        match spec_string_body(s, i + 1) {
            Some(p) => Some((seq![s[i]] + p.0, p.1)),
            None => None,
        }
    }
}

proof fn lemma_string_body_range(s: Seq<char>, i: int)
    requires
        0 <= i,
    ensures
        spec_string_body(s, i) matches Some(p) ==> i < p.1 <= s.len(),
    decreases s.len() - i,
{
    if 0 <= i < s.len() {
        if s[i] == '\\' {
            if i + 1 < s.len() {
                lemma_string_body_range(s, i + 2);
                if i + 6 <= s.len() {
                    lemma_string_body_range(s, i + 6);
                }
            }
        } else {
            lemma_string_body_range(s, i + 1);
        }
    }
}

fn hex_val(c: char) -> (r: Option<u32>)
    ensures
        match r {
            Some(v) => spec_hex_val(c) == v as int && v < 16,
            None => spec_hex_val(c) < 0,
        },
{
    let u = c as u32;
    if 48 <= u && u <= 57 {
        Some(u - 48)
    } else if 97 <= u && u <= 102 {
        Some(u - 87)
    } else if 65 <= u && u <= 70 {
        Some(u - 55)
    } else {
        None
    }
}

fn parse_string_body(s: &str, start: usize) -> (r: Option<(String, usize)>)
    requires
        start <= s@.len(),
    ensures
        match r {
            Some(p) => spec_string_body(s@, start as int) matches Some(q) && p.0@ == q.0 && p.1
                == q.1 && start < p.1 <= s@.len(),
            None => spec_string_body(s@, start as int) is None,
        },
{
    proof {
        lemma_string_body_range(s@, start as int);
    }
    let n = s.unicode_len();
    let mut acc = String::new();
    let mut i = start;
    loop
        invariant
            start <= i <= n,
            n == s@.len(),
            spec_string_body(s@, start as int) == (match spec_string_body(s@, i as int) {
                Some(q) => Some((acc@ + q.0, q.1)),
                None => None::<(Seq<char>, int)>,
            }),
        decreases n - i,
    {
        if i >= n {
            return None;
        }
        let c = s.get_char(i);
        if c == '"' {
            proof {
                assert(acc@ + Seq::<char>::empty() =~= acc@);
                lemma_string_body_range(s@, start as int);
            }
            return Some((acc, i + 1));
        }
        if c == '\\' {
            if i + 1 >= n {
                return None;
            }
            let e = s.get_char(i + 1);
            if e == 'u' {
                if n - i < 6 {
                    return None;
                }
                let h1 = match hex_val(s.get_char(i + 2)) {
                    Some(v) => v,
                    None => {
                        return None;
                    },
                };
                let h2 = match hex_val(s.get_char(i + 3)) {
                    Some(v) => v,
                    None => {
                        return None;
                    },
                };
                let h3 = match hex_val(s.get_char(i + 4)) {
                    Some(v) => v,
                    None => {
                        return None;
                    },
                };
                let h4 = match hex_val(s.get_char(i + 5)) {
                    Some(v) => v,
                    None => {
                        return None;
                    },
                };
                let code = h1 * 4096 + h2 * 256 + h3 * 16 + h4;
                if 0xD800 <= code && code <= 0xDFFF {
                    return None;
                }
                let ch = match char::from_u32(code) {
                    Some(ch) => ch,
                    None => {
                        proof {
                            assert(false);
                        }
                        return None;
                    },
                };
                proof {
                    vstd::utf8::char_u32_cast(ch, code);
                    assert(spec_unicode_escape(
                        s@[i as int + 2],
                        s@[i as int + 3],
                        s@[i as int + 4],
                        s@[i as int + 5],
                    ) == Some(ch));
                }
                let ghost old_acc = acc@;
                push_char(&mut acc, ch);
                i = i + 6;
                proof {
                    assert(acc@ =~= old_acc + seq![ch]);
                    assert forall|q0: Seq<char>, q1: int|
                        spec_string_body(s@, i as int) == Some::<(Seq<char>, int)>(
                            (q0, q1),
                        ) implies acc@ + q0 =~= old_acc + (seq![ch] + q0) by {}
                }
                continue;
            }
            let lit: &str = if e == '"' {
                "\""
            } else if e == '\\' {
                "\\"
            } else if e == '/' {
                "/"
            } else if e == 'b' {
                "\u{0008}"
            } else if e == 'f' {
                "\u{000C}"
            } else if e == 'n' {
                "\n"
            } else if e == 'r' {
                "\r"
            } else if e == 't' {
                "\t"
            } else {
                return None;
            };
            proof {
                reveal_strlit("\"");
                reveal_strlit("\\");
                reveal_strlit("/");
                reveal_strlit("\u{0008}");
                reveal_strlit("\u{000C}");
                reveal_strlit("\n");
                reveal_strlit("\r");
                reveal_strlit("\t");
                assert(lit@ =~= seq![spec_escape(s@[i as int + 1])->0]);
            }
            let ghost old_acc = acc@;
            acc.append(lit);
            i = i + 2;
            proof {
                assert forall|q0: Seq<char>, q1: int|
                    spec_string_body(s@, i as int) == Some::<(Seq<char>, int)>(
                        (q0, q1),
                    ) implies acc@ + q0 =~= old_acc + (seq![
                    spec_escape(s@[i as int - 1])->0,
                ] + q0) by {}
            }
        } else {
            let cu = c as u32;
            if cu < 32 {
                return None;
            }
            let piece = s.substring_char(i, i + 1);
            proof {
                assert(piece@ =~= seq![s@[i as int]]);
            }
            let ghost old_acc = acc@;
            acc.append(piece);
            i = i + 1;
            proof {
                assert forall|q0: Seq<char>, q1: int|
                    spec_string_body(s@, i as int) == Some::<(Seq<char>, int)>(
                        (q0, q1),
                    ) implies acc@ + q0 =~= old_acc + (seq![s@[i as int - 1]] + q0) by {}
            }
        }
    }
}

/// The end of a primitive token: the first delimiter, whitespace
/// included, at or after `i`.
pub open spec fn spec_skip_prim(s: Seq<char>, i: int) -> int
    decreases s.len() - i,
{
    if i < 0 || i >= s.len() {
        i
    } else if s[i] == ',' || s[i] == '}' || s[i] == ']' || spec_is_ws(s[i]) {
        i
    } else {
        spec_skip_prim(s, i + 1)
    }
}

proof fn lemma_skip_prim_range(s: Seq<char>, i: int)
    requires
        0 <= i <= s.len(),
    ensures
        i <= spec_skip_prim(s, i) <= s.len(),
    decreases s.len() - i,
{
    if i < s.len() && !(s[i] == ',' || s[i] == '}' || s[i] == ']' || spec_is_ws(s[i])) {
        lemma_skip_prim_range(s, i + 1);
    }
}

fn skip_prim(s: &str, i: usize) -> (r: usize)
    requires
        i <= s@.len(),
    ensures
        r == spec_skip_prim(s@, i as int),
        i <= r <= s@.len(),
{
    let n = s.unicode_len();
    let mut j = i;
    while j < n
        invariant
            i <= j <= n,
            n == s@.len(),
            spec_skip_prim(s@, i as int) == spec_skip_prim(s@, j as int),
        decreases n - j,
    {
        let c = s.get_char(j);
        if c == ',' || c == '}' || c == ']' || c == ' ' || c == '\t' || c == '\r' || c == '\n' {
            return j;
        }
        j = j + 1;
    }
    j
}

/// Skim past the rest of a composite value by bracket counting, escape
/// aware inside strings: from just after the opening bracket, with `depth`
/// brackets open, to just after the bracket that closes the outermost.
pub open spec fn spec_scan(s: Seq<char>, i: int, depth: int, in_str: bool, esc: bool) -> Option<
    int,
>
    decreases s.len() - i,
{
    if i < 0 || i >= s.len() {
        None
    } else if in_str {
        if esc {
            spec_scan(s, i + 1, depth, true, false)
        } else if s[i] == '\\' {
            spec_scan(s, i + 1, depth, true, true)
        } else if s[i] == '"' {
            spec_scan(s, i + 1, depth, false, false)
        } else {
            spec_scan(s, i + 1, depth, true, false)
        }
    } else if s[i] == '"' {
        spec_scan(s, i + 1, depth, true, false)
    } else if s[i] == '{' || s[i] == '[' {
        spec_scan(s, i + 1, depth + 1, false, false)
    } else if s[i] == '}' || s[i] == ']' {
        if depth <= 1 {
            Some(i + 1)
        } else {
            spec_scan(s, i + 1, depth - 1, false, false)
        }
    } else {
        spec_scan(s, i + 1, depth, false, false)
    }
}

proof fn lemma_scan_range(s: Seq<char>, i: int, depth: int, in_str: bool, esc: bool)
    requires
        0 <= i,
    ensures
        spec_scan(s, i, depth, in_str, esc) matches Some(j) ==> i < j <= s.len(),
    decreases s.len() - i,
{
    if 0 <= i < s.len() {
        lemma_scan_range(s, i + 1, depth, true, false);
        lemma_scan_range(s, i + 1, depth, true, true);
        lemma_scan_range(s, i + 1, depth, false, false);
        lemma_scan_range(s, i + 1, depth + 1, false, false);
        lemma_scan_range(s, i + 1, depth - 1, false, false);
    }
}

fn scan_composite(s: &str, start: usize) -> (r: Option<usize>)
    requires
        1 <= start <= s@.len(),
    ensures
        match r {
            Some(j) => spec_scan(s@, start as int, 1, false, false) == Some(j as int) && start
                < j <= s@.len(),
            None => spec_scan(s@, start as int, 1, false, false) is None,
        },
{
    proof {
        lemma_scan_range(s@, start as int, 1, false, false);
    }
    let n = s.unicode_len();
    let mut i = start;
    let mut depth: usize = 1;
    let mut in_str = false;
    let mut esc = false;
    loop
        invariant
            start <= i <= n,
            1 <= start,
            n == s@.len(),
            1 <= depth,
            depth <= 1 + i - start,
            in_str || !esc,
            spec_scan(s@, start as int, 1, false, false) == spec_scan(
                s@,
                i as int,
                depth as int,
                in_str,
                esc,
            ),
        decreases n - i,
    {
        if i >= n {
            return None;
        }
        let ghost oi = i as int;
        let ghost od = depth as int;
        let ghost os = in_str;
        let ghost oe = esc;
        let c = s.get_char(i);
        if in_str {
            if esc {
                esc = false;
            } else if c == '\\' {
                esc = true;
            } else if c == '"' {
                in_str = false;
            }
            i = i + 1;
        } else if c == '"' {
            in_str = true;
            i = i + 1;
        } else if c == '{' || c == '[' {
            depth = depth + 1;
            i = i + 1;
        } else if c == '}' || c == ']' {
            if depth <= 1 {
                return Some(i + 1);
            }
            depth = depth - 1;
            i = i + 1;
        } else {
            i = i + 1;
        }
        proof {
            assert(spec_scan(s@, oi, od, os, oe) == spec_scan(
                s@,
                i as int,
                depth as int,
                in_str,
                esc,
            ));
        }
    }
}

/// Where a value that is passed over ends: a string is read with the
/// string grammar, a composite is skimmed by bracket counting, and a
/// primitive runs to the next delimiter — an empty primitive is no value.
pub open spec fn spec_skip_value(s: Seq<char>, i: int) -> Option<int> {
    if i < 0 || i >= s.len() {
        None
    } else if s[i] == '"' {
        match spec_string_body(s, i + 1) {
            Some(p) => Some(p.1),
            None => None,
        }
    } else if s[i] == '{' || s[i] == '[' {
        spec_scan(s, i + 1, 1, false, false)
    } else {
        let j = spec_skip_prim(s, i);
        if j == i {
            None
        } else {
            Some(j)
        }
    }
}

proof fn lemma_skip_value_range(s: Seq<char>, i: int)
    requires
        0 <= i,
    ensures
        spec_skip_value(s, i) matches Some(j) ==> i < j <= s.len(),
{
    if 0 <= i < s.len() {
        lemma_string_body_range(s, i + 1);
        lemma_scan_range(s, i + 1, 1, false, false);
        lemma_skip_prim_range(s, i);
    }
}

fn skip_value(s: &str, i: usize) -> (r: Option<usize>)
    requires
        i <= s@.len(),
    ensures
        match r {
            Some(j) => spec_skip_value(s@, i as int) == Some(j as int) && i < j <= s@.len(),
            None => spec_skip_value(s@, i as int) is None,
        },
{
    proof {
        lemma_skip_value_range(s@, i as int);
    }
    let n = s.unicode_len();
    if i >= n {
        return None;
    }
    let c = s.get_char(i);
    if c == '"' {
        match parse_string_body(s, i + 1) {
            Some(p) => Some(p.1),
            None => None,
        }
    } else if c == '{' || c == '[' {
        scan_composite(s, i + 1)
    } else {
        let j = skip_prim(s, i);
        if j == i {
            None
        } else {
            Some(j)
        }
    }
}

/// Read the members of an entry object, from just after `{` or a `,`,
/// with the needed fields collected so far.  The result carries the four
/// fields and the index just after the closing `}`; a duplicate needed
/// field, a missing one, or anything outside the grammar rejects the
/// line.
pub open spec fn spec_parse_members(
    s: Seq<char>,
    i: int,
    name: Option<Seq<char>>,
    vers: Option<Seq<char>>,
    cksum: Option<Seq<char>>,
    yanked: Option<bool>,
) -> Option<(Seq<char>, Seq<char>, Seq<char>, bool, int)>
    decreases s.len() - i,
    when 0 <= i <= s.len()
    via spec_parse_members_dec
{
    let k = spec_skip_ws(s, i);
    if k >= s.len() {
        None
    } else if s[k] == '}' {
        match (name, vers, cksum, yanked) {
            (Some(n), Some(v), Some(c), Some(y)) => Some((n, v, c, y, k + 1)),
            _ => None,
        }
    } else if s[k] == '"' {
        match spec_string_body(s, k + 1) {
            Some(key) => {
                let c = spec_skip_ws(s, key.1);
                if c >= s.len() || s[c] != ':' {
                    None
                } else {
                    let v = spec_skip_ws(s, c + 1);
                    if key.0 == "name"@ || key.0 == "vers"@ || key.0 == "cksum"@ {
                        if v >= s.len() || s[v] != '"' {
                            None
                        } else {
                            match spec_string_body(s, v + 1) {
                                Some(val) => {
                                    let taken = if key.0 == "name"@ {
                                        name
                                    } else if key.0 == "vers"@ {
                                        vers
                                    } else {
                                        cksum
                                    };
                                    if taken is Some {
                                        None
                                    } else {
                                        spec_members_step(
                                            s,
                                            val.1,
                                            if key.0 == "name"@ {
                                                Some(val.0)
                                            } else {
                                                name
                                            },
                                            if key.0 == "vers"@ {
                                                Some(val.0)
                                            } else {
                                                vers
                                            },
                                            if key.0 == "cksum"@ {
                                                Some(val.0)
                                            } else {
                                                cksum
                                            },
                                            yanked,
                                        )
                                    }
                                },
                                None => None,
                            }
                        }
                    } else if key.0 == "yanked"@ {
                        let w = spec_skip_prim(s, v);
                        let word = s.subrange(v, w);
                        if yanked is Some {
                            None
                        } else if word == "true"@ {
                            spec_members_step(s, w, name, vers, cksum, Some(true))
                        } else if word == "false"@ {
                            spec_members_step(s, w, name, vers, cksum, Some(false))
                        } else {
                            None
                        }
                    } else {
                        match spec_skip_value(s, v) {
                            Some(w) => spec_members_step(s, w, name, vers, cksum, yanked),
                            None => None,
                        }
                    }
                }
            },
            None => None,
        }
    } else {
        None
    }
}

/// After one member's value, ending at `w`: a comma continues with the
/// next member, a brace finishes the object, anything else rejects the
/// line.
pub open spec fn spec_members_step(
    s: Seq<char>,
    w: int,
    name: Option<Seq<char>>,
    vers: Option<Seq<char>>,
    cksum: Option<Seq<char>>,
    yanked: Option<bool>,
) -> Option<(Seq<char>, Seq<char>, Seq<char>, bool, int)>
    decreases s.len() - w, 1int,
    when 0 <= w <= s.len()
    via spec_members_step_dec
{
    let d = spec_skip_ws(s, w);
    if d >= s.len() {
        None
    } else if s[d] == ',' {
        spec_parse_members(s, d + 1, name, vers, cksum, yanked)
    } else if s[d] == '}' {
        match (name, vers, cksum, yanked) {
            (Some(n), Some(v), Some(c), Some(y)) => Some((n, v, c, y, d + 1)),
            _ => None,
        }
    } else {
        None
    }
}

#[via_fn]
proof fn spec_parse_members_dec(
    s: Seq<char>,
    i: int,
    name: Option<Seq<char>>,
    vers: Option<Seq<char>>,
    cksum: Option<Seq<char>>,
    yanked: Option<bool>,
) {
    lemma_skip_ws_range(s, i);
    let k = spec_skip_ws(s, i);
    if k < s.len() && s[k] == '"' {
        lemma_string_body_range(s, k + 1);
        match spec_string_body(s, k + 1) {
            Some(key) => {
                lemma_skip_ws_range(s, key.1);
                let c = spec_skip_ws(s, key.1);
                if c < s.len() && s[c] == ':' {
                    lemma_skip_ws_range(s, c + 1);
                    let v = spec_skip_ws(s, c + 1);
                    if v < s.len() && s[v] == '"' {
                        lemma_string_body_range(s, v + 1);
                    }
                    lemma_skip_prim_range(s, v);
                    lemma_skip_value_range(s, v);
                }
            },
            None => {},
        }
    }
}

#[via_fn]
proof fn spec_members_step_dec(
    s: Seq<char>,
    w: int,
    name: Option<Seq<char>>,
    vers: Option<Seq<char>>,
    cksum: Option<Seq<char>>,
    yanked: Option<bool>,
) {
    lemma_skip_ws_range(s, w);
}

/// What an index entry line says: the four needed fields of the one JSON
/// object it holds, or nothing when the line does not fit the grammar.
pub open spec fn spec_parse_line(s: Seq<char>) -> Option<(Seq<char>, Seq<char>, Seq<char>, bool)> {
    let i = spec_skip_ws(s, 0);
    if i >= s.len() || s[i] != '{' {
        None
    } else {
        match spec_parse_members(s, i + 1, None, None, None, None) {
            Some(f) => if spec_skip_ws(s, f.4) == s.len() {
                Some((f.0, f.1, f.2, f.3))
            } else {
                None
            },
            None => None,
        }
    }
}

/// Read one index entry line.
#[verifier::rlimit(100)]
#[verifier::spinoff_prover]
pub fn parse_index_line(line: &str) -> (r: Option<CrateEntry>)
    ensures
        match r {
            Some(e) => spec_parse_line(line@) matches Some(f) && e@.name == f.0 && e@.vers == f.1
                && e@.cksum == f.2 && e@.yanked == f.3,
            None => spec_parse_line(line@) is None,
        },
{
    proof {
        reveal_strlit("name");
        reveal_strlit("vers");
        reveal_strlit("cksum");
        reveal_strlit("yanked");
        reveal_strlit("true");
        reveal_strlit("false");
    }
    let n = line.unicode_len();
    let start = skip_ws(line, 0);
    if start >= n {
        return None;
    }
    if line.get_char(start) != '{' {
        return None;
    }
    let mut i = start + 1;
    let mut name: Option<String> = None;
    let mut vers: Option<String> = None;
    let mut cksum: Option<String> = None;
    let mut yanked: Option<bool> = None;
    proof {
        lemma_skip_ws_range(line@, 0);
    }
    loop
        invariant
            i <= n,
            n == line@.len(),
            spec_parse_line(line@) == (match spec_parse_members(
                line@,
                i as int,
                option_view(name),
                option_view(vers),
                option_view(cksum),
                yanked,
            ) {
                Some(f) => if spec_skip_ws(line@, f.4) == line@.len() {
                    Some((f.0, f.1, f.2, f.3))
                } else {
                    None::<(Seq<char>, Seq<char>, Seq<char>, bool)>
                },
                None => None::<(Seq<char>, Seq<char>, Seq<char>, bool)>,
            }),
        decreases n - i,
    {
        let ghost oi = i as int;
        let ghost of_name = option_view(name);
        let ghost of_vers = option_view(vers);
        let ghost of_cksum = option_view(cksum);
        let ghost of_yanked = yanked;
        let k = skip_ws(line, i);
        if k >= n {
            return None;
        }
        let ck = line.get_char(k);
        if ck == '}' {
            match (name, vers, cksum, yanked) {
                (Some(nm), Some(vr), Some(cs), Some(yn)) => {
                    let t = skip_ws(line, k + 1);
                    if t == n {
                        return Some(CrateEntry::new(nm, vr, cs, yn));
                    } else {
                        return None;
                    }
                },
                _ => {
                    return None;
                },
            }
        }
        if ck != '"' {
            return None;
        }
        let (key, j) = match parse_string_body(line, k + 1) {
            Some(p) => p,
            None => {
                return None;
            },
        };
        let c = skip_ws(line, j);
        if c >= n || line.get_char(c) != ':' {
            return None;
        }
        let v = skip_ws(line, c + 1);
        let is_name = key.clone() == "name".to_owned();
        let is_vers = key.clone() == "vers".to_owned();
        let is_cksum = key.clone() == "cksum".to_owned();
        let is_yanked = key.clone() == "yanked".to_owned();
        let w: usize;
        if is_name || is_vers || is_cksum {
            if v >= n || line.get_char(v) != '"' {
                return None;
            }
            let (val, w2) = match parse_string_body(line, v + 1) {
                Some(p) => p,
                None => {
                    return None;
                },
            };
            if is_name {
                if name.is_some() {
                    return None;
                }
                name = Some(val);
            } else if is_vers {
                if vers.is_some() {
                    return None;
                }
                vers = Some(val);
            } else {
                if cksum.is_some() {
                    return None;
                }
                cksum = Some(val);
            }
            w = w2;
            proof {
                reveal_strlit("name");
                reveal_strlit("vers");
                reveal_strlit("cksum");
                reveal_strlit("yanked");
                reveal_strlit("true");
                reveal_strlit("false");
                let sv = spec_string_body(line@, v as int + 1);
                assert(spec_parse_members(line@, oi, of_name, of_vers, of_cksum, of_yanked)
                    == spec_members_step(
                    line@,
                    (sv->0).1,
                    if key@ == "name"@ {
                        Some((sv->0).0)
                    } else {
                        of_name
                    },
                    if key@ == "vers"@ {
                        Some((sv->0).0)
                    } else {
                        of_vers
                    },
                    if key@ == "cksum"@ {
                        Some((sv->0).0)
                    } else {
                        of_cksum
                    },
                    of_yanked,
                ));
                assert((sv->0).1 == w as int);
                if is_name {
                    assert(key@ == "name"@);
                    assert("name"@.len() == 4);
                    assert("vers"@.len() == 4);
                    assert("name"@[0] == 'n');
                    assert("vers"@[0] == 'v');
                    assert(key@ != "vers"@);
                    assert(key@ != "cksum"@);
                    assert(option_view(name) == Some((sv->0).0));
                } else if is_vers {
                    assert(key@ == "vers"@);
                    assert("name"@[0] == 'n');
                    assert("vers"@[0] == 'v');
                    assert("cksum"@[0] == 'c');
                    assert(key@ != "name"@);
                    assert(key@ != "cksum"@);
                    assert(option_view(vers) == Some((sv->0).0));
                } else {
                    assert(key@ == "cksum"@);
                    assert("name"@[0] == 'n');
                    assert("vers"@[0] == 'v');
                    assert("cksum"@[0] == 'c');
                    assert(key@ != "name"@);
                    assert(key@ != "vers"@);
                    assert(option_view(cksum) == Some((sv->0).0));
                }
                assert(spec_parse_members(line@, oi, of_name, of_vers, of_cksum, of_yanked)
                    == spec_members_step(
                    line@,
                    w as int,
                    option_view(name),
                    option_view(vers),
                    option_view(cksum),
                    yanked,
                ));
            }
        } else if is_yanked {
            if yanked.is_some() {
                return None;
            }
            let w2 = skip_prim(line, v);
            let word = line.substring_char(v, w2);
            let word_owned = word.to_owned();
            if word_owned == "true".to_owned() {
                yanked = Some(true);
            } else {
                if !(word_owned == "false".to_owned()) {
                    return None;
                }
                yanked = Some(false);
            }
            w = w2;
            proof {
                reveal_strlit("name");
                reveal_strlit("vers");
                reveal_strlit("cksum");
                reveal_strlit("yanked");
                reveal_strlit("true");
                reveal_strlit("false");
                assert(spec_parse_members(line@, oi, of_name, of_vers, of_cksum, of_yanked)
                    == spec_members_step(
                    line@,
                    w as int,
                    option_view(name),
                    option_view(vers),
                    option_view(cksum),
                    yanked,
                ));
            }
        } else {
            w = match skip_value(line, v) {
                Some(w2) => w2,
                None => {
                    return None;
                },
            };
            proof {
                reveal_strlit("name");
                reveal_strlit("vers");
                reveal_strlit("cksum");
                reveal_strlit("yanked");
                reveal_strlit("true");
                reveal_strlit("false");
                assert(spec_parse_members(line@, oi, of_name, of_vers, of_cksum, of_yanked)
                    == spec_members_step(
                    line@,
                    w as int,
                    option_view(name),
                    option_view(vers),
                    option_view(cksum),
                    yanked,
                ));
            }
        }
        let d = skip_ws(line, w);
        if d >= n {
            return None;
        }
        let cd = line.get_char(d);
        if cd == ',' {
            i = d + 1;
        } else if cd == '}' {
            i = d;
        } else {
            return None;
        }
        proof {
            assert(spec_members_step(
                line@,
                w as int,
                option_view(name),
                option_view(vers),
                option_view(cksum),
                yanked,
            ) == spec_parse_members(
                line@,
                i as int,
                option_view(name),
                option_view(vers),
                option_view(cksum),
                yanked,
            ));
        }
    }
}

/// An option of a string, seen as an option of its view.
pub open spec fn option_view(o: Option<String>) -> Option<Seq<char>> {
    match o {
        Some(x) => Some(x@),
        None => None,
    }
}

/// The entries of an index file's lines, in order: a line outside the
/// grammar is skipped, and the walk never halts on one.
pub open spec fn spec_entries_of_lines(lines: Seq<Seq<char>>) -> Seq<(Seq<char>, Seq<char>, Seq<
    char,
>, bool)>
    decreases lines.len(),
{
    if lines.len() == 0 {
        Seq::empty()
    } else {
        spec_entries_of_lines(lines.drop_last()) + (match spec_parse_line(lines.last()) {
            Some(f) => seq![f],
            None => Seq::empty(),
        })
    }
}

/// Parse every line of an index file, skipping what does not parse.
pub fn entries_from_lines(lines: &Vec<String>) -> (r: Vec<CrateEntry>)
    ensures
        r.deep_view().len() == spec_entries_of_lines(lines.deep_view()).len(),
        forall|t: int|
            0 <= t < r.deep_view().len() ==> {
                let f = spec_entries_of_lines(lines.deep_view())[t];
                &&& (#[trigger] r.deep_view()[t]).name == f.0
                &&& r.deep_view()[t].vers == f.1
                &&& r.deep_view()[t].cksum == f.2
                &&& r.deep_view()[t].yanked == f.3
            },
{
    let mut r: Vec<CrateEntry> = Vec::new();
    let mut i: usize = 0;
    proof {
        assert(lines.deep_view().subrange(0, 0) =~= Seq::<Seq<char>>::empty());
    }
    while i < lines.len()
        invariant
            i <= lines@.len(),
            r.deep_view().len() == spec_entries_of_lines(
                lines.deep_view().subrange(0, i as int),
            ).len(),
            forall|t: int|
                0 <= t < r.deep_view().len() ==> {
                    let f = spec_entries_of_lines(lines.deep_view().subrange(0, i as int))[t];
                    &&& (#[trigger] r.deep_view()[t]).name == f.0
                    &&& r.deep_view()[t].vers == f.1
                    &&& r.deep_view()[t].cksum == f.2
                    &&& r.deep_view()[t].yanked == f.3
                },
        decreases lines@.len() - i,
    {
        let ghost lp = lines.deep_view().subrange(0, i as int);
        let ghost lp1 = lines.deep_view().subrange(0, i + 1);
        proof {
            assert(lp1.drop_last() =~= lp);
            assert(lp1.last() == lines.deep_view()[i as int]);
        }
        let ghost before = r.deep_view();
        match parse_index_line(lines[i].as_str()) {
            Some(e) => {
                r.push(e);
            },
            None => {},
        }
        proof {
            assert forall|t: int| 0 <= t < r.deep_view().len() implies {
                let f = spec_entries_of_lines(lp1)[t];
                &&& (#[trigger] r.deep_view()[t]).name == f.0
                &&& r.deep_view()[t].vers == f.1
                &&& r.deep_view()[t].cksum == f.2
                &&& r.deep_view()[t].yanked == f.3
            } by {
                if t < before.len() {
                    assert(r.deep_view()[t] == before[t]);
                    assert(spec_entries_of_lines(lp1)[t] == spec_entries_of_lines(lp)[t]);
                }
            }
        }
        i = i + 1;
    }
    proof {
        assert(lines.deep_view().subrange(0, lines.deep_view().len() as int)
            =~= lines.deep_view());
    }
    r
}

} // verus!
