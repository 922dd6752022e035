//! The JSON encoding of the persisted state.
//!
//! The on-disk format is one UTF-8 JSON object
//! `{"last_item_id":N,"epics":{...},"stories":{...}}` whose map keys are
//! stringified ids. The grammar is defined by the `sp_*` specification
//! functions; the executable parser and serializer are proved against them,
//! and reading back a serialized state is proved to give the state again.
//!
//! The schema is strict: the three top-level fields and the entity fields
//! must appear in the order shown (the canonical order the serializer
//! writes), and unknown fields are rejected. A string escape is one of the
//! JSON single-character escapes or `\uXXXX` naming a code point that is
//! not a surrogate; surrogate pairs are not combined, so characters beyond
//! `0xFFFF` must stand as themselves in the UTF-8 text, which is where the
//! serializer always puts them. Serialized output always stays within what
//! the parser accepts.

use crate::errors::DbError;
use crate::id_table::{entries_to_map, IdTable};
use crate::models::{DBState, Epic, EpicView, StateView, Status, Story, StoryView};
use vstd::prelude::*;

verus! {

/// JSON whitespace.
pub open spec fn is_ws(c: char) -> bool {
    c == ' ' || c == '\t' || c == '\n' || c == '\r'
}

/// An ASCII decimal digit.
pub open spec fn is_digit(c: char) -> bool {
    48 <= c as u32 && c as u32 <= 57
}

/// Numeric value of a decimal digit.
pub open spec fn digit_val(c: char) -> u32 {
    (c as u32 - 48) as u32
}

/// The input with its leading whitespace removed.
pub open spec fn sp_ws(s: Seq<char>) -> Seq<char>
    decreases s.len(),
{
    if s.len() > 0 && is_ws(s[0]) {
        sp_ws(s.drop_first())
    } else {
        s
    }
}

/// Consume one expected character.
pub open spec fn sp_char(s: Seq<char>, c: char) -> Option<Seq<char>> {
    if s.len() > 0 && s[0] == c {
        Some(s.drop_first())
    } else {
        None
    }
}

/// Consume a run of digits into an accumulator; fails on `u32` overflow.
pub open spec fn sp_digits(s: Seq<char>, acc: u32) -> Option<(u32, Seq<char>)>
    decreases s.len(),
{
    if s.len() == 0 || !is_digit(s[0]) {
        Some((acc, s))
    } else {
        let d = digit_val(s[0]);
        if acc <= (u32::MAX - d) / 10 {
            sp_digits(s.drop_first(), (acc * 10 + d) as u32)
        } else {
            None
        }
    }
}

/// Consume a non-negative integer: one or more digits, no leading zero,
/// value within `u32`.
pub open spec fn sp_num(s: Seq<char>) -> Option<(u32, Seq<char>)> {
    if s.len() == 0 || !is_digit(s[0]) {
        None
    } else if s[0] == '0' && s.len() > 1 && is_digit(s[1]) {
        None
    } else {
        sp_digits(s, 0)
    }
}

/// Numeric value of a hexadecimal digit, either case.
pub open spec fn hex_val(c: char) -> Option<u32> {
    if 48 <= c as u32 && c as u32 <= 57 {
        Some((c as u32 - 48) as u32)
    } else if 97 <= c as u32 && c as u32 <= 102 {
        Some((c as u32 - 97 + 10) as u32)
    } else if 65 <= c as u32 && c as u32 <= 70 {
        Some((c as u32 - 65 + 10) as u32)
    } else {
        None
    }
}

/// Consume string content up to and including the closing quote. Accepts the
/// JSON single-character escapes and `\uXXXX` for any code point that is not
/// a surrogate; rejects unescaped control characters and everything else
/// after `\`.
pub open spec fn sp_str_chars(s: Seq<char>) -> Option<(Seq<char>, Seq<char>)>
    decreases s.len(),
{
    if s.len() == 0 {
        None
    } else if s[0] == '"' {
        Some((Seq::empty(), s.drop_first()))
    } else if s[0] == '\\' {
        if s.len() < 2 {
            None
        } else {
            let e = s[1];
            if e == 'u' {
                if s.len() < 6 {
                    None
                } else {
                    match (hex_val(s[2]), hex_val(s[3]), hex_val(s[4]), hex_val(s[5])) {
                        (Some(h0), Some(h1), Some(h2), Some(h3)) => {
                            let v = (h0 * 4096 + h1 * 256 + h2 * 16 + h3) as u32;
                            if v < 0xD800 || v >= 0xE000 {
                                match sp_str_chars(s.skip(6)) {
                                    Some((cs, r)) => Some((seq![(v as char)] + cs, r)),
                                    None => None,
                                }
                            } else {
                                None
                            }
                        },
                        _ => None,
                    }
                }
            } else {
                let mapped: Option<char> = if e == '"' {
                    Some('"')
                } else if e == '\\' {
                    Some('\\')
                } else if e == '/' {
                    Some('/')
                } else if e == 'b' {
                    Some('\u{0008}')
                } else if e == 'f' {
                    Some('\u{000C}')
                } else if e == 'n' {
                    Some('\n')
                } else if e == 'r' {
                    Some('\r')
                } else if e == 't' {
                    Some('\t')
                } else {
                    None
                };
                match mapped {
                    Some(c) => match sp_str_chars(s.skip(2)) {
                        Some((cs, r)) => Some((seq![c] + cs, r)),
                        None => None,
                    },
                    None => None,
                }
            }
        }
    } else if (s[0] as u32) < 32 {
        None
    } else {
        match sp_str_chars(s.drop_first()) {
            Some((cs, r)) => Some((seq![s[0]] + cs, r)),
            None => None,
        }
    }
}

/// Consume a JSON string, quotes included.
pub open spec fn sp_string(s: Seq<char>) -> Option<(Seq<char>, Seq<char>)> {
    match sp_char(s, '"') {
        Some(r) => sp_str_chars(r),
        None => None,
    }
}


/// Skip leading whitespace from position `i`.
#[verifier::loop_isolation(false)]
fn p_ws(v: &Vec<char>, i: usize) -> (j: usize)
    requires
        i <= v.len(),
    ensures
        i <= j <= v.len(),
        sp_ws(v@.skip(i as int)) == v@.skip(j as int),
{
    let n = v.len();
    let mut k: usize = i;
    while k < n && (v[k] == ' ' || v[k] == '\t' || v[k] == '\n' || v[k] == '\r')
        invariant
            i <= k <= n,
            sp_ws(v@.skip(i as int)) == sp_ws(v@.skip(k as int)),
        decreases n - k,
    {
        proof {
            assert(v@.skip(k as int).drop_first() =~= v@.skip(k + 1));
        }
        k += 1;
    }
    k
}

/// Consume the expected character at position `i`.
fn p_char(v: &Vec<char>, i: usize, c: char) -> (r: Option<usize>)
    requires
        i <= v.len(),
    ensures
        match r {
            Some(j) => i < j <= v.len() && sp_char(v@.skip(i as int), c) == Some(
                v@.skip(j as int),
            ),
            None => sp_char(v@.skip(i as int), c) is None,
        },
{
    if i < v.len() && v[i] == c {
        proof {
            assert(v@.skip(i as int).drop_first() =~= v@.skip(i + 1));
        }
        Some(i + 1)
    } else {
        None
    }
}

/// Consume a non-negative `u32` integer at position `i`.
#[verifier::loop_isolation(false)]
fn p_num(v: &Vec<char>, i: usize) -> (r: Option<(u32, usize)>)
    requires
        i <= v.len(),
    ensures
        match r {
            Some((n, j)) => i < j <= v.len() && sp_num(v@.skip(i as int)) == Some(
                (n, v@.skip(j as int)),
            ),
            None => sp_num(v@.skip(i as int)) is None,
        },
{
    let n = v.len();
    if i >= n || !(v[i] as u32 >= 48 && v[i] as u32 <= 57) {
        return None;
    }
    if v[i] == '0' && i + 1 < n && (v[i + 1] as u32 >= 48 && v[i + 1] as u32 <= 57) {
        proof {
            assert(v@.skip(i as int)[1] == v@[i + 1]);
        }
        return None;
    }
    let mut acc: u32 = 0;
    let mut k: usize = i;
    while k < n && (v[k] as u32 >= 48 && v[k] as u32 <= 57)
        invariant
            i <= k <= n,
            sp_digits(v@.skip(i as int), 0) == sp_digits(v@.skip(k as int), acc),
        decreases n - k,
    {
        let d: u32 = v[k] as u32 - 48;
        if acc > (u32::MAX - d) / 10 {
            return None;
        }
        proof {
            assert(v@.skip(k as int).drop_first() =~= v@.skip(k + 1));
        }
        acc = acc * 10 + d;
        k += 1;
    }
    proof {
        assert(sp_digits(v@.skip(k as int), acc) == Some((acc, v@.skip(k as int))));
    }
    Some((acc, k))
}

/// Numeric value of a hexadecimal digit at execution time.
fn hexv(c: char) -> (r: Option<u32>)
    ensures
        r == hex_val(c),
{
    let u = c as u32;
    if u >= 48 && u <= 57 {
        Some(u - 48)
    } else if u >= 97 && u <= 102 {
        Some(u - 97 + 10)
    } else if u >= 65 && u <= 70 {
        Some(u - 65 + 10)
    } else {
        None
    }
}

/// Consume string content up to and including the closing quote.
#[verifier::rlimit(100)]
fn p_str_chars(v: &Vec<char>, i: usize) -> (r: Option<(Vec<char>, usize)>)
    requires
        i <= v.len(),
    ensures
        match r {
            Some((cs, j)) => i < j <= v.len() && sp_str_chars(v@.skip(i as int)) == Some(
                (cs@, v@.skip(j as int)),
            ),
            None => sp_str_chars(v@.skip(i as int)) is None,
        },
    decreases v.len() - i,
{
    let n = v.len();
    if i >= n {
        return None;
    }
    let c = v[i];
    if c == '"' {
        proof {
            assert(v@.skip(i as int).drop_first() =~= v@.skip(i + 1));
        }
        return Some((Vec::new(), i + 1));
    }
    if c == '\\' {
        if n - i < 2 {
            proof {
                assert(v@.skip(i as int).len() < 2);
            }
            return None;
        }
        let e = v[i + 1];
        proof {
            assert(v@.skip(i as int)[1] == v@[i + 1]);
        }
        if e == 'u' {
            if n - i < 6 {
                proof {
                    assert(v@.skip(i as int).len() < 6);
                }
                return None;
            }
            proof {
                assert(v@.skip(i as int)[2] == v@[i + 2]);
                assert(v@.skip(i as int)[3] == v@[i + 3]);
                assert(v@.skip(i as int)[4] == v@[i + 4]);
                assert(v@.skip(i as int)[5] == v@[i + 5]);
            }
            let h0 = hexv(v[i + 2]);
            let h1 = hexv(v[i + 3]);
            let h2 = hexv(v[i + 4]);
            let h3 = hexv(v[i + 5]);
            match (h0, h1, h2, h3) {
                (Some(h0), Some(h1), Some(h2), Some(h3)) => {
                    let val: u32 = h0 * 4096 + h1 * 256 + h2 * 16 + h3;
                    if val < 0xD800 || val >= 0xE000 {
                        let decoded: char = char_from_code(val).unwrap();
                        proof {
                            vstd::utf8::char_u32_cast(decoded, val);
                            assert(v@.skip(i as int).skip(6) =~= v@.skip(i + 6));
                        }
                        match p_str_chars(v, i + 6) {
                            Some((mut cs, j)) => {
                                let ghost t0 = cs@;
                                cs.insert(0, decoded);
                                proof {
                                    assert(cs@ =~= seq![decoded] + t0);
                                }
                                Some((cs, j))
                            },
                            None => None,
                        }
                    } else {
                        None
                    }
                },
                _ => None,
            }
        } else {
            let mapped: Option<char> = if e == '"' {
                Some('"')
            } else if e == '\\' {
                Some('\\')
            } else if e == '/' {
                Some('/')
            } else if e == 'b' {
                Some('\u{0008}')
            } else if e == 'f' {
                Some('\u{000C}')
            } else if e == 'n' {
                Some('\n')
            } else if e == 'r' {
                Some('\r')
            } else if e == 't' {
                Some('\t')
            } else {
                None
            };
            match mapped {
                Some(mc) => {
                    proof {
                        assert(v@.skip(i as int).skip(2) =~= v@.skip(i + 2));
                    }
                    match p_str_chars(v, i + 2) {
                        Some((mut cs, j)) => {
                            let ghost t0 = cs@;
                            cs.insert(0, mc);
                            proof {
                                assert(cs@ =~= seq![mc] + t0);
                            }
                            Some((cs, j))
                        },
                        None => None,
                    }
                },
                None => None,
            }
        }
    } else if (c as u32) < 32 {
        None
    } else {
        proof {
            assert(v@.skip(i as int).drop_first() =~= v@.skip(i + 1));
        }
        match p_str_chars(v, i + 1) {
            Some((mut cs, j)) => {
                let ghost t0 = cs@;
                cs.insert(0, c);
                proof {
                    assert(cs@ =~= seq![c] + t0);
                }
                Some((cs, j))
            },
            None => None,
        }
    }
}

/// Consume a JSON string, quotes included.
fn p_string(v: &Vec<char>, i: usize) -> (r: Option<(Vec<char>, usize)>)
    requires
        i <= v.len(),
    ensures
        match r {
            Some((cs, j)) => i < j <= v.len() && sp_string(v@.skip(i as int)) == Some(
                (cs@, v@.skip(j as int)),
            ),
            None => sp_string(v@.skip(i as int)) is None,
        },
{
    match p_char(v, i, '"') {
        Some(j) => p_str_chars(v, j),
        None => None,
    }
}


/// The field name `last_item_id`.
pub open spec fn lit_last_item_id() -> Seq<char> {
    seq!['l', 'a', 's', 't', '_', 'i', 't', 'e', 'm', '_', 'i', 'd']
}

/// The field name `epics`.
pub open spec fn lit_epics() -> Seq<char> {
    seq!['e', 'p', 'i', 'c', 's']
}

/// The field name `stories`.
pub open spec fn lit_stories() -> Seq<char> {
    seq!['s', 't', 'o', 'r', 'i', 'e', 's']
}

/// The field name `name`.
pub open spec fn lit_name() -> Seq<char> {
    seq!['n', 'a', 'm', 'e']
}

/// The field name `description`.
pub open spec fn lit_description() -> Seq<char> {
    seq!['d', 'e', 's', 'c', 'r', 'i', 'p', 't', 'i', 'o', 'n']
}

/// The field name `status`.
pub open spec fn lit_status() -> Seq<char> {
    seq!['s', 't', 'a', 't', 'u', 's']
}

/// The status word `Open`.
pub open spec fn lit_open() -> Seq<char> {
    seq!['O', 'p', 'e', 'n']
}

/// The status word `InProgress`.
pub open spec fn lit_in_progress() -> Seq<char> {
    seq!['I', 'n', 'P', 'r', 'o', 'g', 'r', 'e', 's', 's']
}

/// The status word `Resolved`.
pub open spec fn lit_resolved() -> Seq<char> {
    seq!['R', 'e', 's', 'o', 'l', 'v', 'e', 'd']
}

/// The status word `Closed`.
pub open spec fn lit_closed() -> Seq<char> {
    seq!['C', 'l', 'o', 's', 'e', 'd']
}

/// Consume a quoted status word.
pub open spec fn sp_status(s: Seq<char>) -> Option<(Status, Seq<char>)> {
    match sp_string(s) {
        Some((cs, r)) => if cs == lit_open() {
            Some((Status::Open, r))
        } else if cs == lit_in_progress() {
            Some((Status::InProgress, r))
        } else if cs == lit_resolved() {
            Some((Status::Resolved, r))
        } else if cs == lit_closed() {
            Some((Status::Closed, r))
        } else {
            None
        },
        None => None,
    }
}

/// Consume `ws "key" ws :` for the given field name.
pub open spec fn sp_key(s: Seq<char>, key: Seq<char>) -> Option<Seq<char>> {
    match sp_string(sp_ws(s)) {
        Some((cs, r)) => if cs == key {
            sp_char(sp_ws(r), ':')
        } else {
            None
        },
        None => None,
    }
}

/// Consume the items of a non-empty id list, closing bracket included.
pub open spec fn sp_idlist_items(s: Seq<char>, acc: Seq<u32>) -> Option<(Seq<u32>, Seq<char>)>
    decreases s.len(),
{
    match sp_num(s) {
        None => None,
        Some((x, r)) => {
            let r1 = sp_ws(r);
            if r1.len() > 0 && r1[0] == ',' {
                let r2 = sp_ws(r1.drop_first());
                if r2.len() < s.len() {
                    sp_idlist_items(r2, acc.push(x))
                } else {
                    None
                }
            } else if r1.len() > 0 && r1[0] == ']' {
                Some((acc.push(x), r1.drop_first()))
            } else {
                None
            }
        },
    }
}

/// Consume a JSON list of ids.
pub open spec fn sp_idlist(s: Seq<char>) -> Option<(Seq<u32>, Seq<char>)> {
    match sp_char(sp_ws(s), '[') {
        None => None,
        Some(r) => {
            let r1 = sp_ws(r);
            if r1.len() > 0 && r1[0] == ']' {
                Some((Seq::empty(), r1.drop_first()))
            } else {
                sp_idlist_items(r1, Seq::empty())
            }
        },
    }
}

/// Consume a story record: name, description and status, in that order.
pub open spec fn sp_story_obj(s: Seq<char>) -> Option<(StoryView, Seq<char>)> {
    match sp_char(sp_ws(s), '{') {
        None => None,
        Some(s1) => match sp_key(s1, lit_name()) {
            None => None,
            Some(s2) => match sp_string(sp_ws(s2)) {
                None => None,
                Some((name, s3)) => match sp_char(sp_ws(s3), ',') {
                    None => None,
                    Some(s4) => match sp_key(s4, lit_description()) {
                        None => None,
                        Some(s5) => match sp_string(sp_ws(s5)) {
                            None => None,
                            Some((description, s6)) => match sp_char(sp_ws(s6), ',') {
                                None => None,
                                Some(s7) => match sp_key(s7, lit_status()) {
                                    None => None,
                                    Some(s8) => match sp_status(sp_ws(s8)) {
                                        None => None,
                                        Some((status, s9)) => match sp_char(sp_ws(s9), '}') {
                                            None => None,
                                            Some(rest) => Some(
                                                (StoryView { name, description, status }, rest),
                                            ),
                                        },
                                    },
                                },
                            },
                        },
                    },
                },
            },
        },
    }
}

/// Consume an epic record: name, description, status and story ids, in that
/// order.
pub open spec fn sp_epic_obj(s: Seq<char>) -> Option<(EpicView, Seq<char>)> {
    match sp_char(sp_ws(s), '{') {
        None => None,
        Some(s1) => match sp_key(s1, lit_name()) {
            None => None,
            Some(s2) => match sp_string(sp_ws(s2)) {
                None => None,
                Some((name, s3)) => match sp_char(sp_ws(s3), ',') {
                    None => None,
                    Some(s4) => match sp_key(s4, lit_description()) {
                        None => None,
                        Some(s5) => match sp_string(sp_ws(s5)) {
                            None => None,
                            Some((description, s6)) => match sp_char(sp_ws(s6), ',') {
                                None => None,
                                Some(s7) => match sp_key(s7, lit_status()) {
                                    None => None,
                                    Some(s8) => match sp_status(sp_ws(s8)) {
                                        None => None,
                                        Some((status, s9)) => match sp_char(sp_ws(s9), ',') {
                                            None => None,
                                            Some(s10) => match sp_key(s10, lit_stories()) {
                                                None => None,
                                                Some(s11) => match sp_idlist(s11) {
                                                    None => None,
                                                    Some((stories, s12)) => match sp_char(
                                                        sp_ws(s12),
                                                        '}',
                                                    ) {
                                                        None => None,
                                                        Some(rest) => Some(
                                                            (
                                                                EpicView {
                                                                    name,
                                                                    description,
                                                                    status,
                                                                    stories,
                                                                },
                                                                rest,
                                                            ),
                                                        ),
                                                    },
                                                },
                                            },
                                        },
                                    },
                                },
                            },
                        },
                    },
                },
            },
        },
    }
}

/// Consume a stringified id used as a map key: a quoted number with nothing
/// else inside the quotes.
pub open spec fn sp_id_key(s: Seq<char>) -> Option<(u32, Seq<char>)> {
    match sp_string(sp_ws(s)) {
        None => None,
        Some((kcs, r)) => match sp_num(kcs) {
            None => None,
            Some((k, kr)) => if kr.len() == 0 {
                Some((k, r))
            } else {
                None
            },
        },
    }
}

/// Consume the entries of a non-empty epic map, closing brace included.
/// A repeated id would overwrite the earlier entry.
pub open spec fn sp_emap_items(s: Seq<char>, acc: Map<u32, EpicView>) -> Option<
    (Map<u32, EpicView>, Seq<char>),
>
    decreases s.len(),
{
    match sp_id_key(s) {
        None => None,
        Some((k, r)) => match sp_char(sp_ws(r), ':') {
            None => None,
            Some(r2) => match sp_epic_obj(r2) {
                None => None,
                Some((e, r3)) => {
                    let r4 = sp_ws(r3);
                    if r4.len() > 0 && r4[0] == ',' {
                        let r5 = r4.drop_first();
                        if r5.len() < s.len() {
                            sp_emap_items(r5, acc.insert(k, e))
                        } else {
                            None
                        }
                    } else if r4.len() > 0 && r4[0] == '}' {
                        Some((acc.insert(k, e), r4.drop_first()))
                    } else {
                        None
                    }
                },
            },
        },
    }
}

/// Consume a JSON map from stringified ids to epic records.
pub open spec fn sp_emap(s: Seq<char>) -> Option<(Map<u32, EpicView>, Seq<char>)> {
    match sp_char(sp_ws(s), '{') {
        None => None,
        Some(r) => {
            let r1 = sp_ws(r);
            if r1.len() > 0 && r1[0] == '}' {
                Some((Map::empty(), r1.drop_first()))
            } else {
                sp_emap_items(r1, Map::empty())
            }
        },
    }
}

/// Consume the entries of a non-empty story map, closing brace included.
/// A repeated id would overwrite the earlier entry.
pub open spec fn sp_smap_items(s: Seq<char>, acc: Map<u32, StoryView>) -> Option<
    (Map<u32, StoryView>, Seq<char>),
>
    decreases s.len(),
{
    match sp_id_key(s) {
        None => None,
        Some((k, r)) => match sp_char(sp_ws(r), ':') {
            None => None,
            Some(r2) => match sp_story_obj(r2) {
                None => None,
                Some((st, r3)) => {
                    let r4 = sp_ws(r3);
                    if r4.len() > 0 && r4[0] == ',' {
                        let r5 = r4.drop_first();
                        if r5.len() < s.len() {
                            sp_smap_items(r5, acc.insert(k, st))
                        } else {
                            None
                        }
                    } else if r4.len() > 0 && r4[0] == '}' {
                        Some((acc.insert(k, st), r4.drop_first()))
                    } else {
                        None
                    }
                },
            },
        },
    }
}

/// Consume a JSON map from stringified ids to story records.
pub open spec fn sp_smap(s: Seq<char>) -> Option<(Map<u32, StoryView>, Seq<char>)> {
    match sp_char(sp_ws(s), '{') {
        None => None,
        Some(r) => {
            let r1 = sp_ws(r);
            if r1.len() > 0 && r1[0] == '}' {
                Some((Map::empty(), r1.drop_first()))
            } else {
                sp_smap_items(r1, Map::empty())
            }
        },
    }
}

/// The whole document: the state's three fields in order, and nothing but
/// whitespace after the closing brace.
pub open spec fn sp_state(text: Seq<char>) -> Option<StateView> {
    match sp_char(sp_ws(text), '{') {
        None => None,
        Some(s1) => match sp_key(s1, lit_last_item_id()) {
            None => None,
            Some(s2) => match sp_num(sp_ws(s2)) {
                None => None,
                Some((n, s3)) => match sp_char(sp_ws(s3), ',') {
                    None => None,
                    Some(s4) => match sp_key(s4, lit_epics()) {
                        None => None,
                        Some(s5) => match sp_emap(s5) {
                            None => None,
                            Some((epics, s6)) => match sp_char(sp_ws(s6), ',') {
                                None => None,
                                Some(s7) => match sp_key(s7, lit_stories()) {
                                    None => None,
                                    Some(s8) => match sp_smap(s8) {
                                        None => None,
                                        Some((stories, s9)) => match sp_char(sp_ws(s9), '}') {
                                            None => None,
                                            Some(s10) => if sp_ws(s10).len() == 0 {
                                                Some(StateView { last_item_id: n, epics, stories })
                                            } else {
                                                None
                                            },
                                        },
                                    },
                                },
                            },
                        },
                    },
                },
            },
        },
    }
}


/// Whether the parsed characters equal the expected word.
#[verifier::loop_isolation(false)]
fn chars_eq<const N: usize>(cs: &Vec<char>, lit: &[char; N]) -> (r: bool)
    ensures
        r == (cs@ == lit@),
{
    if cs.len() != N {
        proof {
            assert(cs@.len() != lit@.len());
        }
        return false;
    }
    let mut i: usize = 0;
    while i < N
        invariant
            0 <= i <= N,
            cs@.len() == N == lit@.len(),
            forall|j: int| 0 <= j < i ==> cs@[j] == lit@[j],
        decreases N - i,
    {
        if cs[i] != lit[i] {
            return false;
        }
        i += 1;
    }
    proof {
        assert(cs@ =~= lit@);
    }
    true
}

/// Consume a quoted status word at position `i`.
fn p_status(v: &Vec<char>, i: usize) -> (r: Option<(Status, usize)>)
    requires
        i <= v.len(),
    ensures
        match r {
            Some((st, j)) => i < j <= v.len() && sp_status(v@.skip(i as int)) == Some(
                (st, v@.skip(j as int)),
            ),
            None => sp_status(v@.skip(i as int)) is None,
        },
{
    match p_string(v, i) {
        None => None,
        Some((cs, j)) => {
            let open_lit = ['O', 'p', 'e', 'n'];
            let in_progress_lit = ['I', 'n', 'P', 'r', 'o', 'g', 'r', 'e', 's', 's'];
            let resolved_lit = ['R', 'e', 's', 'o', 'l', 'v', 'e', 'd'];
            let closed_lit = ['C', 'l', 'o', 's', 'e', 'd'];
            proof {
                assert(open_lit@ =~= lit_open());
                assert(in_progress_lit@ =~= lit_in_progress());
                assert(resolved_lit@ =~= lit_resolved());
                assert(closed_lit@ =~= lit_closed());
            }
            if chars_eq(&cs, &open_lit) {
                Some((Status::Open, j))
            } else if chars_eq(&cs, &in_progress_lit) {
                Some((Status::InProgress, j))
            } else if chars_eq(&cs, &resolved_lit) {
                Some((Status::Resolved, j))
            } else if chars_eq(&cs, &closed_lit) {
                Some((Status::Closed, j))
            } else {
                None
            }
        },
    }
}

/// Consume `ws "key" ws :` at position `i`.
fn p_key<const N: usize>(v: &Vec<char>, i: usize, lit: &[char; N]) -> (r: Option<usize>)
    requires
        i <= v.len(),
    ensures
        match r {
            Some(j) => i < j <= v.len() && sp_key(v@.skip(i as int), lit@) == Some(
                v@.skip(j as int),
            ),
            None => sp_key(v@.skip(i as int), lit@) is None,
        },
{
    let j0 = p_ws(v, i);
    match p_string(v, j0) {
        None => None,
        Some((cs, j1)) => {
            if chars_eq(&cs, lit) {
                let j2 = p_ws(v, j1);
                p_char(v, j2, ':')
            } else {
                None
            }
        },
    }
}

/// Consume the items of a non-empty id list at position `i`.
fn p_idlist_items(v: &Vec<char>, i: usize, acc: Vec<u32>) -> (r: Option<(Vec<u32>, usize)>)
    requires
        i <= v.len(),
    ensures
        match r {
            Some((ids, j)) => i < j <= v.len() && sp_idlist_items(v@.skip(i as int), acc@) == Some(
                (ids@, v@.skip(j as int)),
            ),
            None => sp_idlist_items(v@.skip(i as int), acc@) is None,
        },
    decreases v.len() - i,
{
    match p_num(v, i) {
        None => None,
        Some((x, jn)) => {
            let j1 = p_ws(v, jn);
            if j1 < v.len() && v[j1] == ',' {
                proof {
                    assert(v@.skip(j1 as int).drop_first() =~= v@.skip(j1 + 1));
                }
                let j2 = p_ws(v, j1 + 1);
                let mut acc2 = acc;
                let ghost acc0 = acc2@;
                acc2.push(x);
                proof {
                    assert(acc2@ =~= acc0.push(x));
                }
                p_idlist_items(v, j2, acc2)
            } else if j1 < v.len() && v[j1] == ']' {
                let mut acc2 = acc;
                let ghost acc0 = acc2@;
                acc2.push(x);
                proof {
                    assert(acc2@ =~= acc0.push(x));
                    assert(v@.skip(j1 as int).drop_first() =~= v@.skip(j1 + 1));
                }
                Some((acc2, j1 + 1))
            } else {
                None
            }
        },
    }
}

/// Consume a JSON list of ids at position `i`.
fn p_idlist(v: &Vec<char>, i: usize) -> (r: Option<(Vec<u32>, usize)>)
    requires
        i <= v.len(),
    ensures
        match r {
            Some((ids, j)) => i < j <= v.len() && sp_idlist(v@.skip(i as int)) == Some(
                (ids@, v@.skip(j as int)),
            ),
            None => sp_idlist(v@.skip(i as int)) is None,
        },
{
    let j0 = p_ws(v, i);
    match p_char(v, j0, '[') {
        None => None,
        Some(j1) => {
            let j2 = p_ws(v, j1);
            let empty_ids: Vec<u32> = Vec::new();
            if j2 < v.len() && v[j2] == ']' {
                proof {
                    assert(v@.skip(j2 as int).drop_first() =~= v@.skip(j2 + 1));
                }
                Some((empty_ids, j2 + 1))
            } else {
                p_idlist_items(v, j2, empty_ids)
            }
        },
    }
}

/// Consume a stringified id used as a map key at position `i`.
fn p_id_key(v: &Vec<char>, i: usize) -> (r: Option<(u32, usize)>)
    requires
        i <= v.len(),
    ensures
        match r {
            Some((k, j)) => i < j <= v.len() && sp_id_key(v@.skip(i as int)) == Some(
                (k, v@.skip(j as int)),
            ),
            None => sp_id_key(v@.skip(i as int)) is None,
        },
{
    let j0 = p_ws(v, i);
    match p_string(v, j0) {
        None => None,
        Some((kcs, j1)) => {
            match p_num(&kcs, 0) {
                None => {
                    proof {
                        assert(kcs@.skip(0) =~= kcs@);
                    }
                    None
                },
                Some((k, kend)) => {
                    proof {
                        assert(kcs@.skip(0) =~= kcs@);
                    }
                    if kend == kcs.len() {
                        proof {
                            assert(kcs@.skip(kend as int) =~= Seq::<char>::empty());
                        }
                        Some((k, j1))
                    } else {
                        None
                    }
                },
            }
        },
    }
}

/// Consume a story record at position `i`.
fn p_story_obj(v: &Vec<char>, i: usize) -> (r: Option<(Story, usize)>)
    requires
        i <= v.len(),
    ensures
        match r {
            Some((story, j)) => i < j <= v.len() && sp_story_obj(v@.skip(i as int)) == Some(
                (story@, v@.skip(j as int)),
            ),
            None => sp_story_obj(v@.skip(i as int)) is None,
        },
{
    let name_lit = ['n', 'a', 'm', 'e'];
    let description_lit = ['d', 'e', 's', 'c', 'r', 'i', 'p', 't', 'i', 'o', 'n'];
    let status_lit = ['s', 't', 'a', 't', 'u', 's'];
    proof {
        assert(name_lit@ =~= lit_name());
        assert(description_lit@ =~= lit_description());
        assert(status_lit@ =~= lit_status());
    }
    let j0 = p_ws(v, i);
    let j1 = match p_char(v, j0, '{') {
        None => {
            return None;
        },
        Some(j) => j,
    };
    let j2 = match p_key(v, j1, &name_lit) {
        None => {
            return None;
        },
        Some(j) => j,
    };
    let (name, j3) = match p_string(v, p_ws(v, j2)) {
        None => {
            return None;
        },
        Some(x) => x,
    };
    let j4 = match p_char(v, p_ws(v, j3), ',') {
        None => {
            return None;
        },
        Some(j) => j,
    };
    let j5 = match p_key(v, j4, &description_lit) {
        None => {
            return None;
        },
        Some(j) => j,
    };
    let (description, j6) = match p_string(v, p_ws(v, j5)) {
        None => {
            return None;
        },
        Some(x) => x,
    };
    let j7 = match p_char(v, p_ws(v, j6), ',') {
        None => {
            return None;
        },
        Some(j) => j,
    };
    let j8 = match p_key(v, j7, &status_lit) {
        None => {
            return None;
        },
        Some(j) => j,
    };
    let (status, j9) = match p_status(v, p_ws(v, j8)) {
        None => {
            return None;
        },
        Some(x) => x,
    };
    let rest = match p_char(v, p_ws(v, j9), '}') {
        None => {
            return None;
        },
        Some(j) => j,
    };
    let story = Story { name: string_of(name), description: string_of(description), status };
    Some((story, rest))
}

/// Consume an epic record at position `i`.
fn p_epic_obj(v: &Vec<char>, i: usize) -> (r: Option<(Epic, usize)>)
    requires
        i <= v.len(),
    ensures
        match r {
            Some((epic, j)) => i < j <= v.len() && sp_epic_obj(v@.skip(i as int)) == Some(
                (epic@, v@.skip(j as int)),
            ),
            None => sp_epic_obj(v@.skip(i as int)) is None,
        },
{
    let name_lit = ['n', 'a', 'm', 'e'];
    let description_lit = ['d', 'e', 's', 'c', 'r', 'i', 'p', 't', 'i', 'o', 'n'];
    let status_lit = ['s', 't', 'a', 't', 'u', 's'];
    let stories_lit = ['s', 't', 'o', 'r', 'i', 'e', 's'];
    proof {
        assert(name_lit@ =~= lit_name());
        assert(description_lit@ =~= lit_description());
        assert(status_lit@ =~= lit_status());
        assert(stories_lit@ =~= lit_stories());
    }
    let j0 = p_ws(v, i);
    let j1 = match p_char(v, j0, '{') {
        None => {
            return None;
        },
        Some(j) => j,
    };
    let j2 = match p_key(v, j1, &name_lit) {
        None => {
            return None;
        },
        Some(j) => j,
    };
    let (name, j3) = match p_string(v, p_ws(v, j2)) {
        None => {
            return None;
        },
        Some(x) => x,
    };
    let j4 = match p_char(v, p_ws(v, j3), ',') {
        None => {
            return None;
        },
        Some(j) => j,
    };
    let j5 = match p_key(v, j4, &description_lit) {
        None => {
            return None;
        },
        Some(j) => j,
    };
    let (description, j6) = match p_string(v, p_ws(v, j5)) {
        None => {
            return None;
        },
        Some(x) => x,
    };
    let j7 = match p_char(v, p_ws(v, j6), ',') {
        None => {
            return None;
        },
        Some(j) => j,
    };
    let j8 = match p_key(v, j7, &status_lit) {
        None => {
            return None;
        },
        Some(j) => j,
    };
    let (status, j9) = match p_status(v, p_ws(v, j8)) {
        None => {
            return None;
        },
        Some(x) => x,
    };
    let j10 = match p_char(v, p_ws(v, j9), ',') {
        None => {
            return None;
        },
        Some(j) => j,
    };
    let j11 = match p_key(v, j10, &stories_lit) {
        None => {
            return None;
        },
        Some(j) => j,
    };
    let (stories, j12) = match p_idlist(v, j11) {
        None => {
            return None;
        },
        Some(x) => x,
    };
    let rest = match p_char(v, p_ws(v, j12), '}') {
        None => {
            return None;
        },
        Some(j) => j,
    };
    let epic = Epic {
        name: string_of(name),
        description: string_of(description),
        status,
        stories,
    };
    Some((epic, rest))
}

/// Consume the entries of a non-empty epic map at position `i`.
fn p_emap_items(v: &Vec<char>, i: usize, acc: IdTable<Epic>) -> (r: Option<(IdTable<Epic>, usize)>)
    requires
        i <= v.len(),
        acc.wf(),
    ensures
        match r {
            Some((t, j)) => i < j <= v.len() && t.wf() && sp_emap_items(v@.skip(i as int), acc@)
                == Some((t@, v@.skip(j as int))),
            None => sp_emap_items(v@.skip(i as int), acc@) is None,
        },
    decreases v.len() - i,
{
    match p_id_key(v, i) {
        None => None,
        Some((k, j0)) => {
            match p_char(v, p_ws(v, j0), ':') {
                None => None,
                Some(j1) => {
                    match p_epic_obj(v, j1) {
                        None => None,
                        Some((epic, j2)) => {
                            let j3 = p_ws(v, j2);
                            if j3 < v.len() && v[j3] == ',' {
                                proof {
                                    assert(v@.skip(j3 as int).drop_first() =~= v@.skip(j3 + 1));
                                }
                                let mut acc2 = acc;
                                acc2.insert(k, epic);
                                p_emap_items(v, j3 + 1, acc2)
                            } else if j3 < v.len() && v[j3] == '}' {
                                proof {
                                    assert(v@.skip(j3 as int).drop_first() =~= v@.skip(j3 + 1));
                                }
                                let mut acc2 = acc;
                                acc2.insert(k, epic);
                                Some((acc2, j3 + 1))
                            } else {
                                None
                            }
                        },
                    }
                },
            }
        },
    }
}

/// Consume a JSON map from stringified ids to epic records at position `i`.
fn p_emap(v: &Vec<char>, i: usize) -> (r: Option<(IdTable<Epic>, usize)>)
    requires
        i <= v.len(),
    ensures
        match r {
            Some((t, j)) => i < j <= v.len() && t.wf() && sp_emap(v@.skip(i as int)) == Some(
                (t@, v@.skip(j as int)),
            ),
            None => sp_emap(v@.skip(i as int)) is None,
        },
{
    let j0 = p_ws(v, i);
    match p_char(v, j0, '{') {
        None => None,
        Some(j1) => {
            let j2 = p_ws(v, j1);
            if j2 < v.len() && v[j2] == '}' {
                proof {
                    assert(v@.skip(j2 as int).drop_first() =~= v@.skip(j2 + 1));
                }
                Some((IdTable::new(), j2 + 1))
            } else {
                p_emap_items(v, j2, IdTable::new())
            }
        },
    }
}

/// Consume the entries of a non-empty story map at position `i`.
fn p_smap_items(v: &Vec<char>, i: usize, acc: IdTable<Story>) -> (r: Option<
    (IdTable<Story>, usize),
>)
    requires
        i <= v.len(),
        acc.wf(),
    ensures
        match r {
            Some((t, j)) => i < j <= v.len() && t.wf() && sp_smap_items(v@.skip(i as int), acc@)
                == Some((t@, v@.skip(j as int))),
            None => sp_smap_items(v@.skip(i as int), acc@) is None,
        },
    decreases v.len() - i,
{
    match p_id_key(v, i) {
        None => None,
        Some((k, j0)) => {
            match p_char(v, p_ws(v, j0), ':') {
                None => None,
                Some(j1) => {
                    match p_story_obj(v, j1) {
                        None => None,
                        Some((story, j2)) => {
                            let j3 = p_ws(v, j2);
                            if j3 < v.len() && v[j3] == ',' {
                                proof {
                                    assert(v@.skip(j3 as int).drop_first() =~= v@.skip(j3 + 1));
                                }
                                let mut acc2 = acc;
                                acc2.insert(k, story);
                                p_smap_items(v, j3 + 1, acc2)
                            } else if j3 < v.len() && v[j3] == '}' {
                                proof {
                                    assert(v@.skip(j3 as int).drop_first() =~= v@.skip(j3 + 1));
                                }
                                let mut acc2 = acc;
                                acc2.insert(k, story);
                                Some((acc2, j3 + 1))
                            } else {
                                None
                            }
                        },
                    }
                },
            }
        },
    }
}

/// Consume a JSON map from stringified ids to story records at position `i`.
fn p_smap(v: &Vec<char>, i: usize) -> (r: Option<(IdTable<Story>, usize)>)
    requires
        i <= v.len(),
    ensures
        match r {
            Some((t, j)) => i < j <= v.len() && t.wf() && sp_smap(v@.skip(i as int)) == Some(
                (t@, v@.skip(j as int)),
            ),
            None => sp_smap(v@.skip(i as int)) is None,
        },
{
    let j0 = p_ws(v, i);
    match p_char(v, j0, '{') {
        None => None,
        Some(j1) => {
            let j2 = p_ws(v, j1);
            if j2 < v.len() && v[j2] == '}' {
                proof {
                    assert(v@.skip(j2 as int).drop_first() =~= v@.skip(j2 + 1));
                }
                Some((IdTable::new(), j2 + 1))
            } else {
                p_smap_items(v, j2, IdTable::new())
            }
        },
    }
}

/// Parse a whole document from characters.
pub fn parse_chars(v: &Vec<char>) -> (r: Result<DBState, DbError>)
    ensures
        r matches Ok(db) ==> db.wf() && sp_state(v@) == Some(db@),
        r matches Err(e) ==> e == DbError::StorageParse && sp_state(v@) is None,
{
    let last_item_id_lit = ['l', 'a', 's', 't', '_', 'i', 't', 'e', 'm', '_', 'i', 'd'];
    let epics_lit = ['e', 'p', 'i', 'c', 's'];
    let stories_lit = ['s', 't', 'o', 'r', 'i', 'e', 's'];
    proof {
        assert(last_item_id_lit@ =~= lit_last_item_id());
        assert(epics_lit@ =~= lit_epics());
        assert(stories_lit@ =~= lit_stories());
        assert(v@.skip(0) =~= v@);
    }
    let j0 = p_ws(v, 0);
    let j1 = match p_char(v, j0, '{') {
        None => {
            return Err(DbError::StorageParse);
        },
        Some(j) => j,
    };
    let j2 = match p_key(v, j1, &last_item_id_lit) {
        None => {
            return Err(DbError::StorageParse);
        },
        Some(j) => j,
    };
    let (last_item_id, j3) = match p_num(v, p_ws(v, j2)) {
        None => {
            return Err(DbError::StorageParse);
        },
        Some(x) => x,
    };
    let j4 = match p_char(v, p_ws(v, j3), ',') {
        None => {
            return Err(DbError::StorageParse);
        },
        Some(j) => j,
    };
    let j5 = match p_key(v, j4, &epics_lit) {
        None => {
            return Err(DbError::StorageParse);
        },
        Some(j) => j,
    };
    let (epics, j6) = match p_emap(v, j5) {
        None => {
            return Err(DbError::StorageParse);
        },
        Some(x) => x,
    };
    let j7 = match p_char(v, p_ws(v, j6), ',') {
        None => {
            return Err(DbError::StorageParse);
        },
        Some(j) => j,
    };
    let j8 = match p_key(v, j7, &stories_lit) {
        None => {
            return Err(DbError::StorageParse);
        },
        Some(j) => j,
    };
    let (stories, j9) = match p_smap(v, j8) {
        None => {
            return Err(DbError::StorageParse);
        },
        Some(x) => x,
    };
    let j10 = match p_char(v, p_ws(v, j9), '}') {
        None => {
            return Err(DbError::StorageParse);
        },
        Some(j) => j,
    };
    let j11 = p_ws(v, j10);
    if j11 != v.len() {
        return Err(DbError::StorageParse);
    }
    Ok(DBState { last_item_id, epics, stories })
}

/// Relies on `str::chars`: it yields the string's characters in order.
#[verifier::external_body]
fn chars_of(s: &str) -> (v: Vec<char>)
    ensures
        v@ == s@,
{
    s.chars().collect()
}

/// Relies on `char::from_u32`: it returns the character of a code point
/// exactly when the value is not a surrogate and is at most `0x10FFFF`.
#[verifier::external_body]
fn char_from_code(v: u32) -> (r: Option<char>)
    ensures
        r matches Some(c) ==> c as u32 == v,
        (r is Some) <==> (v < 0xD800 || (0xE000 <= v && v <= 0x10FFFF)),
{
    char::from_u32(v)
}

/// Relies on `String`'s `FromIterator` over `char`: the collected string
/// holds exactly the given characters in order.
#[verifier::external_body]
fn string_of(v: Vec<char>) -> (s: String)
    ensures
        s@ == v@,
{
    v.into_iter().collect()
}

/// Parse a whole document from text. Succeeds exactly on the documents the
/// grammar accepts, and fails with the storage parse error on all others.
pub fn parse_db_text(text: &str) -> (r: Result<DBState, DbError>)
    ensures
        r matches Ok(db) ==> db.wf() && sp_state(text@) == Some(db@),
        r matches Err(e) ==> e == DbError::StorageParse && sp_state(text@) is None,
{
    let v = chars_of(text);
    parse_chars(&v)
}


/// The character of a decimal digit value.
pub open spec fn digit_char(d: u32) -> char
    recommends
        d < 10,
{
    ((48 + d) as u8) as char
}

/// The character of a hexadecimal digit value, lower case.
pub open spec fn hex_char(d: u32) -> char
    recommends
        d < 16,
{
    if d < 10 {
        ((48 + d) as u8) as char
    } else {
        ((97 + (d - 10)) as u8) as char
    }
}

/// Decimal spelling of a number, most significant digit first.
pub open spec fn ser_num(n: u32) -> Seq<char>
    decreases n,
{
    if n < 10 {
        seq![digit_char(n as u32)]
    } else {
        ser_num(n / 10).push(digit_char(n % 10))
    }
}

/// The escape-free characters: everything but the quote, the backslash and
/// the control range.
pub open spec fn plain_char(c: char) -> bool {
    c != '"' && c != '\\' && c as u32 >= 32
}

/// How one character is written inside a string.
pub open spec fn esc(c: char) -> Seq<char> {
    if c == '"' {
        seq!['\\', '"']
    } else if c == '\\' {
        seq!['\\', '\\']
    } else if (c as u32) < 32 {
        seq!['\\', 'u', '0', '0', hex_char(c as u32 / 16), hex_char(c as u32 % 16)]
    } else {
        seq![c]
    }
}

/// String content, written character by character.
pub open spec fn ser_str_chars(cs: Seq<char>) -> Seq<char>
    decreases cs.len(),
{
    if cs.len() == 0 {
        Seq::empty()
    } else {
        esc(cs[0]) + ser_str_chars(cs.drop_first())
    }
}

/// A quoted string.
pub open spec fn ser_string(cs: Seq<char>) -> Seq<char> {
    seq!['"'] + ser_str_chars(cs) + seq!['"']
}

/// The word of a status.
pub open spec fn status_word(st: Status) -> Seq<char> {
    match st {
        Status::Open => lit_open(),
        Status::InProgress => lit_in_progress(),
        Status::Resolved => lit_resolved(),
        Status::Closed => lit_closed(),
    }
}

/// A quoted status word.
pub open spec fn ser_status(st: Status) -> Seq<char> {
    seq!['"'] + status_word(st) + seq!['"']
}

/// A quoted field name followed by the colon.
pub open spec fn ser_key(key: Seq<char>) -> Seq<char> {
    seq!['"'] + key + seq!['"', ':']
}

/// Comma-separated ids.
pub open spec fn ser_ids(ids: Seq<u32>) -> Seq<char>
    decreases ids.len(),
{
    if ids.len() == 0 {
        Seq::empty()
    } else if ids.len() == 1 {
        ser_num(ids[0])
    } else {
        ser_num(ids[0]) + seq![','] + ser_ids(ids.drop_first())
    }
}

/// A bracketed id list.
pub open spec fn ser_idlist(ids: Seq<u32>) -> Seq<char> {
    seq!['['] + ser_ids(ids) + seq![']']
}

/// A story record.
pub open spec fn ser_story(st: StoryView) -> Seq<char> {
    seq!['{'] + ser_key(lit_name()) + ser_string(st.name) + seq![','] + ser_key(lit_description())
        + ser_string(st.description) + seq![','] + ser_key(lit_status()) + ser_status(st.status)
        + seq!['}']
}

/// An epic record.
pub open spec fn ser_epic(e: EpicView) -> Seq<char> {
    seq!['{'] + ser_key(lit_name()) + ser_string(e.name) + seq![','] + ser_key(lit_description())
        + ser_string(e.description) + seq![','] + ser_key(lit_status()) + ser_status(e.status)
        + seq![','] + ser_key(lit_stories()) + ser_idlist(e.stories) + seq!['}']
}

/// Comma-separated epic map entries, keys written as quoted numbers.
pub open spec fn ser_eentries(entries: Seq<(u32, Epic)>) -> Seq<char>
    decreases entries.len(),
{
    if entries.len() == 0 {
        Seq::empty()
    } else {
        let head = seq!['"'] + ser_num(entries[0].0) + seq!['"', ':'] + ser_epic(entries[0].1@);
        if entries.len() == 1 {
            head
        } else {
            head + seq![','] + ser_eentries(entries.drop_first())
        }
    }
}

/// Comma-separated story map entries, keys written as quoted numbers.
pub open spec fn ser_sentries(entries: Seq<(u32, Story)>) -> Seq<char>
    decreases entries.len(),
{
    if entries.len() == 0 {
        Seq::empty()
    } else {
        let head = seq!['"'] + ser_num(entries[0].0) + seq!['"', ':'] + ser_story(entries[0].1@);
        if entries.len() == 1 {
            head
        } else {
            head + seq![','] + ser_sentries(entries.drop_first())
        }
    }
}

/// The whole document a state is written as.
pub open spec fn ser_state(db: DBState) -> Seq<char> {
    seq!['{'] + ser_key(lit_last_item_id()) + ser_num(db.last_item_id) + seq![','] + ser_key(
        lit_epics(),
    ) + seq!['{'] + ser_eentries(db.epics.spec_entries()) + seq!['}'] + seq![','] + ser_key(
        lit_stories(),
    ) + seq!['{'] + ser_sentries(db.stories.spec_entries()) + seq!['}'] + seq!['}']
}

/// Append every character of the word.
#[verifier::loop_isolation(false)]
fn push_all<const N: usize>(lit: &[char; N], out: &mut Vec<char>)
    ensures
        final(out)@ == old(out)@ + lit@,
{
    let mut i: usize = 0;
    while i < N
        invariant
            0 <= i <= N,
            out@ == old(out)@ + lit@.take(i as int),
        decreases N - i,
    {
        out.push(lit[i]);
        proof {
            assert(old(out)@ + lit@.take(i + 1) =~= (old(out)@ + lit@.take(i as int)).push(
                lit@[i as int],
            ));
        }
        i += 1;
    }
    proof {
        assert(lit@.take(N as int) =~= lit@);
    }
}

/// Append the decimal spelling of `n`.
fn e_num(n: u32, out: &mut Vec<char>)
    ensures
        final(out)@ == old(out)@ + ser_num(n),
    decreases n,
{
    if n < 10 {
        let c: char = ((48 + n) as u8) as char;
        out.push(c);
        proof {
            assert(old(out)@ + ser_num(n) =~= old(out)@.push(c));
        }
    } else {
        e_num(n / 10, out);
        let c: char = ((48 + n % 10) as u8) as char;
        out.push(c);
        proof {
            assert(old(out)@ + ser_num(n) =~= (old(out)@ + ser_num(n / 10)).push(c));
        }
    }
}

/// Append string content, escaping as the format requires.
fn e_str_chars(cs: &Vec<char>, k: usize, out: &mut Vec<char>)
    requires
        k <= cs.len(),
    ensures
        final(out)@ == old(out)@ + ser_str_chars(cs@.skip(k as int)),
    decreases cs.len() - k,
{
    if k == cs.len() {
        proof {
            assert(old(out)@ + ser_str_chars(cs@.skip(k as int)) =~= old(out)@);
        }
        return ;
    }
    let c = cs[k];
    proof {
        assert(cs@.skip(k as int).drop_first() =~= cs@.skip(k + 1));
    }
    if c == '"' {
        out.push('\\');
        out.push('"');
    } else if c == '\\' {
        out.push('\\');
        out.push('\\');
    } else if (c as u32) < 32 {
        let hi: u32 = c as u32 / 16;
        let lo: u32 = c as u32 % 16;
        let hi_c: char = if hi < 10 {
            ((48 + hi) as u8) as char
        } else {
            ((97 + (hi - 10)) as u8) as char
        };
        let lo_c: char = if lo < 10 {
            ((48 + lo) as u8) as char
        } else {
            ((97 + (lo - 10)) as u8) as char
        };
        out.push('\\');
        out.push('u');
        out.push('0');
        out.push('0');
        out.push(hi_c);
        out.push(lo_c);
    } else {
        out.push(c);
    }
    proof {
        assert(out@ =~= old(out)@ + esc(cs@[k as int]));
    }
    e_str_chars(cs, k + 1, out);
    proof {
        assert(old(out)@ + ser_str_chars(cs@.skip(k as int)) =~= (old(out)@ + esc(cs@[k as int]))
            + ser_str_chars(cs@.skip(k + 1)));
    }
}

/// Append a quoted string.
fn e_string(text: &str, out: &mut Vec<char>)
    ensures
        final(out)@ == old(out)@ + ser_string(text@),
{
    let cs = chars_of(text);
    out.push('"');
    proof {
        assert(cs@.skip(0) =~= cs@);
    }
    e_str_chars(&cs, 0, out);
    out.push('"');
    proof {
        assert(old(out)@ + ser_string(text@) =~= ((old(out)@.push('"')) + ser_str_chars(text@))
            .push('"'));
    }
}

/// Append a quoted status word.
fn e_status(st: &Status, out: &mut Vec<char>)
    ensures
        final(out)@ == old(out)@ + ser_status(*st),
{
    match st {
        Status::Open => {
            let w = ['"', 'O', 'p', 'e', 'n', '"'];
            proof {
                assert(w@ =~= seq!['"'] + lit_open() + seq!['"']);
            }
            push_all(&w, out);
        },
        Status::InProgress => {
            let w = ['"', 'I', 'n', 'P', 'r', 'o', 'g', 'r', 'e', 's', 's', '"'];
            proof {
                assert(w@ =~= seq!['"'] + lit_in_progress() + seq!['"']);
            }
            push_all(&w, out);
        },
        Status::Resolved => {
            let w = ['"', 'R', 'e', 's', 'o', 'l', 'v', 'e', 'd', '"'];
            proof {
                assert(w@ =~= seq!['"'] + lit_resolved() + seq!['"']);
            }
            push_all(&w, out);
        },
        Status::Closed => {
            let w = ['"', 'C', 'l', 'o', 's', 'e', 'd', '"'];
            proof {
                assert(w@ =~= seq!['"'] + lit_closed() + seq!['"']);
            }
            push_all(&w, out);
        },
    }
}

/// Append comma-separated ids, from position `k` of the list.
fn e_ids(ids: &Vec<u32>, k: usize, out: &mut Vec<char>)
    requires
        k <= ids.len(),
    ensures
        final(out)@ == old(out)@ + ser_ids(ids@.skip(k as int)),
    decreases ids.len() - k,
{
    if k == ids.len() {
        proof {
            assert(old(out)@ + ser_ids(ids@.skip(k as int)) =~= old(out)@);
        }
        return ;
    }
    e_num(ids[k], out);
    proof {
        assert(ids@.skip(k as int).drop_first() =~= ids@.skip(k + 1));
    }
    if k + 1 == ids.len() {
        proof {
            assert(old(out)@ + ser_ids(ids@.skip(k as int)) =~= old(out)@ + ser_num(
                ids@[k as int],
            ));
        }
        return ;
    }
    out.push(',');
    let ghost mid = out@;
    e_ids(ids, k + 1, out);
    proof {
        assert(old(out)@ + ser_ids(ids@.skip(k as int)) =~= mid + ser_ids(ids@.skip(k + 1)));
    }
}

/// Append a bracketed id list.
fn e_idlist(ids: &Vec<u32>, out: &mut Vec<char>)
    ensures
        final(out)@ == old(out)@ + ser_idlist(ids@),
{
    out.push('[');
    proof {
        assert(ids@.skip(0) =~= ids@);
    }
    e_ids(ids, 0, out);
    out.push(']');
    proof {
        assert(old(out)@ + ser_idlist(ids@) =~= ((old(out)@.push('[')) + ser_ids(ids@)).push(']'));
    }
}

/// Append a story record.
fn e_story(story: &Story, out: &mut Vec<char>)
    ensures
        final(out)@ == old(out)@ + ser_story(story@),
{
    let name_key = ['{', '"', 'n', 'a', 'm', 'e', '"', ':'];
    proof {
        assert(name_key@ =~= seq!['{'] + ser_key(lit_name()));
    }
    push_all(&name_key, out);
    e_string(story.name.as_str(), out);
    let description_key = [
        ',',
        '"',
        'd',
        'e',
        's',
        'c',
        'r',
        'i',
        'p',
        't',
        'i',
        'o',
        'n',
        '"',
        ':',
    ];
    proof {
        assert(description_key@ =~= seq![','] + ser_key(lit_description()));
    }
    push_all(&description_key, out);
    e_string(story.description.as_str(), out);
    let status_key = [',', '"', 's', 't', 'a', 't', 'u', 's', '"', ':'];
    proof {
        assert(status_key@ =~= seq![','] + ser_key(lit_status()));
    }
    push_all(&status_key, out);
    e_status(&story.status, out);
    out.push('}');
    proof {
        assert(out@ =~= old(out)@ + ser_story(story@));
    }
}

/// Append an epic record.
fn e_epic(epic: &Epic, out: &mut Vec<char>)
    ensures
        final(out)@ == old(out)@ + ser_epic(epic@),
{
    let name_key = ['{', '"', 'n', 'a', 'm', 'e', '"', ':'];
    proof {
        assert(name_key@ =~= seq!['{'] + ser_key(lit_name()));
    }
    push_all(&name_key, out);
    e_string(epic.name.as_str(), out);
    let description_key = [
        ',',
        '"',
        'd',
        'e',
        's',
        'c',
        'r',
        'i',
        'p',
        't',
        'i',
        'o',
        'n',
        '"',
        ':',
    ];
    proof {
        assert(description_key@ =~= seq![','] + ser_key(lit_description()));
    }
    push_all(&description_key, out);
    e_string(epic.description.as_str(), out);
    let status_key = [',', '"', 's', 't', 'a', 't', 'u', 's', '"', ':'];
    proof {
        assert(status_key@ =~= seq![','] + ser_key(lit_status()));
    }
    push_all(&status_key, out);
    e_status(&epic.status, out);
    let stories_key = [',', '"', 's', 't', 'o', 'r', 'i', 'e', 's', '"', ':'];
    proof {
        assert(stories_key@ =~= seq![','] + ser_key(lit_stories()));
    }
    push_all(&stories_key, out);
    e_idlist(&epic.stories, out);
    out.push('}');
    proof {
        assert(out@ =~= old(out)@ + ser_epic(epic@));
    }
}

/// Append comma-separated epic entries, from position `k` of the table.
fn e_eentries(t: &IdTable<Epic>, k: usize, out: &mut Vec<char>)
    requires
        t.wf(),
        k <= t.spec_entries().len(),
    ensures
        final(out)@ == old(out)@ + ser_eentries(t.spec_entries().skip(k as int)),
    decreases t.spec_entries().len() - k,
{
    let n = t.len();
    if k == n {
        proof {
            assert(old(out)@ + ser_eentries(t.spec_entries().skip(k as int)) =~= old(out)@);
        }
        return ;
    }
    let entry = t.entry_at(k);
    out.push('"');
    e_num(entry.0, out);
    out.push('"');
    out.push(':');
    e_epic(&entry.1, out);
    proof {
        assert(out@ =~= old(out)@ + (seq!['"'] + ser_num(t.spec_entries()[k as int].0) + seq![
            '"',
            ':',
        ] + ser_epic(t.spec_entries()[k as int].1@)));
        assert(t.spec_entries().skip(k as int).drop_first() =~= t.spec_entries().skip(k + 1));
    }
    if k + 1 == n {
        return ;
    }
    out.push(',');
    let ghost mid = out@;
    e_eentries(t, k + 1, out);
    proof {
        assert(old(out)@ + ser_eentries(t.spec_entries().skip(k as int)) =~= mid + ser_eentries(
            t.spec_entries().skip(k + 1),
        ));
    }
}

/// Append comma-separated story entries, from position `k` of the table.
fn e_sentries(t: &IdTable<Story>, k: usize, out: &mut Vec<char>)
    requires
        t.wf(),
        k <= t.spec_entries().len(),
    ensures
        final(out)@ == old(out)@ + ser_sentries(t.spec_entries().skip(k as int)),
    decreases t.spec_entries().len() - k,
{
    let n = t.len();
    if k == n {
        proof {
            assert(old(out)@ + ser_sentries(t.spec_entries().skip(k as int)) =~= old(out)@);
        }
        return ;
    }
    let entry = t.entry_at(k);
    out.push('"');
    e_num(entry.0, out);
    out.push('"');
    out.push(':');
    e_story(&entry.1, out);
    proof {
        assert(out@ =~= old(out)@ + (seq!['"'] + ser_num(t.spec_entries()[k as int].0) + seq![
            '"',
            ':',
        ] + ser_story(t.spec_entries()[k as int].1@)));
        assert(t.spec_entries().skip(k as int).drop_first() =~= t.spec_entries().skip(k + 1));
    }
    if k + 1 == n {
        return ;
    }
    out.push(',');
    let ghost mid = out@;
    e_sentries(t, k + 1, out);
    proof {
        assert(old(out)@ + ser_sentries(t.spec_entries().skip(k as int)) =~= mid + ser_sentries(
            t.spec_entries().skip(k + 1),
        ));
    }
}

/// Write a whole state as one document.
pub fn serialize_db(db: &DBState) -> (r: String)
    requires
        db.wf(),
    ensures
        r@ == ser_state(*db),
{
    let mut out: Vec<char> = Vec::new();
    let counter_key = [
        '{',
        '"',
        'l',
        'a',
        's',
        't',
        '_',
        'i',
        't',
        'e',
        'm',
        '_',
        'i',
        'd',
        '"',
        ':',
    ];
    proof {
        assert(counter_key@ =~= seq!['{'] + ser_key(lit_last_item_id()));
    }
    push_all(&counter_key, &mut out);
    e_num(db.last_item_id, &mut out);
    let epics_key = [',', '"', 'e', 'p', 'i', 'c', 's', '"', ':', '{'];
    proof {
        assert(epics_key@ =~= seq![','] + ser_key(lit_epics()) + seq!['{']);
    }
    push_all(&epics_key, &mut out);
    proof {
        assert(db.epics.spec_entries().skip(0) =~= db.epics.spec_entries());
        assert(db.stories.spec_entries().skip(0) =~= db.stories.spec_entries());
    }
    e_eentries(&db.epics, 0, &mut out);
    let stories_key = ['}', ',', '"', 's', 't', 'o', 'r', 'i', 'e', 's', '"', ':', '{'];
    proof {
        assert(stories_key@ =~= seq!['}'] + seq![','] + ser_key(lit_stories()) + seq!['{']);
    }
    push_all(&stories_key, &mut out);
    e_sentries(&db.stories, 0, &mut out);
    out.push('}');
    out.push('}');
    proof {
        assert(out@ =~= ser_state(*db));
    }
    string_of(out)
}


/// Powers of ten.
pub open spec fn pow10(k: nat) -> nat
    decreases k,
{
    if k == 0 {
        1
    } else {
        10 * pow10((k - 1) as nat)
    }
}

/// The spelling of a number is one or more digits, with no leading zero
/// unless the number is zero.
proof fn lemma_ser_num_shape(n: u32)
    ensures
        ser_num(n).len() >= 1,
        forall|i: int| 0 <= i < ser_num(n).len() ==> is_digit(#[trigger] ser_num(n)[i]),
        n >= 1 ==> ser_num(n)[0] != '0',
    decreases n,
{
    if n >= 10 {
        lemma_ser_num_shape(n / 10);
        assert(forall|i: int|
            0 <= i < ser_num(n).len() - 1 ==> #[trigger] ser_num(n)[i] == ser_num(n / 10)[i]);
    }
}

/// Reading the spelled digits accumulates exactly the spelled number.
proof fn lemma_sp_digits_ser(n: u32, acc: u32, rest: Seq<char>)
    requires
        acc * pow10(ser_num(n).len() as nat) + n <= u32::MAX,
    ensures
        sp_digits(ser_num(n) + rest, acc) == sp_digits(
            rest,
            (acc * pow10(ser_num(n).len() as nat) + n) as u32,
        ),
    decreases n,
{
    lemma_ser_num_shape(n);
    if n < 10 {
        let s = ser_num(n) + rest;
        assert(s[0] == digit_char(n));
        assert(digit_char(n) as u32 == 48 + n);
        assert(is_digit(s[0]));
        assert(digit_val(digit_char(n)) == ((48 + n) - 48) as u32);
        assert(digit_val(s[0]) == n);
        assert(pow10(1) == 10) by {
            reveal_with_fuel(pow10, 2);
        }
        assert(acc <= (u32::MAX - n) / 10) by {
            assert(acc * 10 + n <= u32::MAX);
        }
        assert(s.drop_first() =~= rest);
    } else {
        let len1 = ser_num(n / 10).len() as nat;
        let d = n % 10;
        let acc2 = acc * pow10(len1) + n / 10;
        assert(ser_num(n) =~= ser_num(n / 10).push(digit_char(d)));
        assert(pow10(len1 + 1) == 10 * pow10(len1));
        assert(acc2 * 10 + d == acc * pow10(len1 + 1) + n) by (nonlinear_arith)
            requires
                acc2 == acc * pow10(len1) + n / 10,
                d == n % 10,
                pow10(len1 + 1) == 10 * pow10(len1),
                n >= 10,
        ;
        lemma_pow10_pos(len1);
        assert(acc2 >= 0 && acc2 * 10 + d >= acc2) by (nonlinear_arith)
            requires
                acc2 == acc * pow10(len1) + n / 10,
                acc >= 0,
                pow10(len1) >= 1,
                d >= 0,
                n >= 10,
        ;
        assert(acc2 <= u32::MAX);
        assert(acc * pow10(len1) + n / 10 <= u32::MAX);
        lemma_sp_digits_ser(n / 10, acc, seq![digit_char(d)] + rest);
        assert(ser_num(n) + rest =~= ser_num(n / 10) + (seq![digit_char(d)] + rest));
        let s2 = seq![digit_char(d)] + rest;
        assert(s2[0] == digit_char(d));
        assert(is_digit(s2[0]) && digit_val(s2[0]) == d);
        assert(acc2 <= (u32::MAX - d) / 10) by {
            assert(acc2 * 10 + d <= u32::MAX);
        }
        assert(s2.drop_first() =~= rest);
        assert(sp_digits(s2, (acc2 as u32)) == sp_digits(rest, ((acc2 * 10 + d) as u32)));
    }
}

/// A spelled number followed by a non-digit reads back as itself.
proof fn lemma_rt_num(n: u32, rest: Seq<char>)
    requires
        rest.len() == 0 || !is_digit(rest[0]),
    ensures
        sp_num(ser_num(n) + rest) == Some((n, rest)),
{
    lemma_ser_num_shape(n);
    let s = ser_num(n) + rest;
    assert(s[0] == ser_num(n)[0]);
    assert(is_digit(s[0]));
    if s[0] == '0' && s.len() > 1 && is_digit(s[1]) {
        assert(n < 10);
        assert(ser_num(n).len() == 1);
        assert(s[1] == rest[0]);
        assert(false);
    }
    assert(pow10(ser_num(n).len() as nat) >= 1) by {
        lemma_pow10_pos(ser_num(n).len() as nat);
    }
    lemma_sp_digits_ser(n, 0, rest);
    assert(0 * pow10(ser_num(n).len() as nat) + n == n);
    assert(sp_digits(rest, n) == Some((n, rest)));
}

/// Powers of ten are positive.
proof fn lemma_pow10_pos(k: nat)
    ensures
        pow10(k) >= 1,
    decreases k,
{
    if k > 0 {
        lemma_pow10_pos((k - 1) as nat);
    }
}

/// Escape-free characters read back as themselves up to the closing quote.
proof fn lemma_plain_chars(cs: Seq<char>, rest: Seq<char>)
    requires
        forall|i: int| 0 <= i < cs.len() ==> plain_char(#[trigger] cs[i]),
    ensures
        sp_str_chars(cs + (seq!['"'] + rest)) == Some((cs, rest)),
    decreases cs.len(),
{
    let s = cs + (seq!['"'] + rest);
    if cs.len() == 0 {
        assert(s[0] == '"');
        assert(s.drop_first() =~= rest);
    } else {
        let c = cs[0];
        assert(s[0] == c);
        assert(plain_char(c));
        lemma_plain_chars(cs.drop_first(), rest);
        assert(s.drop_first() =~= cs.drop_first() + (seq!['"'] + rest));
        assert(seq![c] + cs.drop_first() =~= cs);
    }
}

/// Escaped string content reads back as the original characters.
proof fn lemma_rt_str_chars(cs: Seq<char>, rest: Seq<char>)
    ensures
        sp_str_chars(ser_str_chars(cs) + (seq!['"'] + rest)) == Some((cs, rest)),
    decreases cs.len(),
{
    let s = ser_str_chars(cs) + (seq!['"'] + rest);
    if cs.len() == 0 {
        assert(s =~= seq!['"'] + rest);
        assert(s[0] == '"');
        assert(s.drop_first() =~= rest);
    } else {
        let c = cs[0];
        let tail_ser = ser_str_chars(cs.drop_first());
        lemma_rt_str_chars(cs.drop_first(), rest);
        assert(s =~= esc(c) + (tail_ser + (seq!['"'] + rest)));
        let s_tail = tail_ser + (seq!['"'] + rest);
        if c == '"' {
            assert(s[0] == '\\' && s[1] == '"');
            assert(s.skip(2) =~= s_tail);
            assert(seq!['"'] + cs.drop_first() =~= cs);
        } else if c == '\\' {
            assert(s[0] == '\\' && s[1] == '\\');
            assert(s.skip(2) =~= s_tail);
            assert(seq!['\\'] + cs.drop_first() =~= cs);
        } else if (c as u32) < 32 {
            let hi = c as u32 / 16;
            let lo = c as u32 % 16;
            assert(s[0] == '\\' && s[1] == 'u' && s[2] == '0' && s[3] == '0' && s[4] == hex_char(
                hi,
            ) && s[5] == hex_char(lo));
            assert(hex_val('0') == Some(0u32));
            assert(hex_char(hi) as u32 == if hi < 10 { 48 + hi } else { 97 + (hi - 10) });
            assert(hex_char(lo) as u32 == if lo < 10 { 48 + lo } else { 97 + (lo - 10) });
            assert(hex_val(hex_char(hi)) == Some(hi));
            assert(hex_val(hex_char(lo)) == Some(lo));
            let v = (0 * 4096 + 0 * 256 + hi * 16 + lo) as u32;
            assert(v == c as u32);
            assert(v < 0xD800);
            vstd::utf8::char_u32_cast(c, v);
            assert((v as char) == c);
            assert(s.skip(6) =~= s_tail);
            assert(seq![c] + cs.drop_first() =~= cs);
        } else {
            assert(s[0] == c);
            assert(s.drop_first() =~= s_tail);
            assert(seq![c] + cs.drop_first() =~= cs);
        }
    }
}

/// A serialized string reads back as its characters.
proof fn lemma_rt_string(cs: Seq<char>, rest: Seq<char>)
    ensures
        sp_string(ser_string(cs) + rest) == Some((cs, rest)),
{
    let s = ser_string(cs) + rest;
    assert(s[0] == '"');
    lemma_rt_str_chars(cs, rest);
    assert(s.drop_first() =~= ser_str_chars(cs) + (seq!['"'] + rest));
}

/// Every character of the field names and status words is escape-free.
proof fn lemma_lits_plain()
    ensures
        forall|i: int| 0 <= i < lit_last_item_id().len() ==> plain_char(
            #[trigger] lit_last_item_id()[i],
        ),
        forall|i: int| 0 <= i < lit_epics().len() ==> plain_char(#[trigger] lit_epics()[i]),
        forall|i: int| 0 <= i < lit_stories().len() ==> plain_char(#[trigger] lit_stories()[i]),
        forall|i: int| 0 <= i < lit_name().len() ==> plain_char(#[trigger] lit_name()[i]),
        forall|i: int| 0 <= i < lit_description().len() ==> plain_char(
            #[trigger] lit_description()[i],
        ),
        forall|i: int| 0 <= i < lit_status().len() ==> plain_char(#[trigger] lit_status()[i]),
        forall|i: int| 0 <= i < lit_open().len() ==> plain_char(#[trigger] lit_open()[i]),
        forall|i: int| 0 <= i < lit_in_progress().len() ==> plain_char(
            #[trigger] lit_in_progress()[i],
        ),
        forall|i: int| 0 <= i < lit_resolved().len() ==> plain_char(#[trigger] lit_resolved()[i]),
        forall|i: int| 0 <= i < lit_closed().len() ==> plain_char(#[trigger] lit_closed()[i]),
{
}

/// A serialized status reads back as itself.
proof fn lemma_rt_status(st: Status, rest: Seq<char>)
    ensures
        sp_status(ser_status(st) + rest) == Some((st, rest)),
{
    lemma_lits_plain();
    let w = status_word(st);
    let s = ser_status(st) + rest;
    assert(s[0] == '"');
    lemma_plain_chars(w, rest);
    assert(s.drop_first() =~= w + (seq!['"'] + rest));
    assert(lit_open().len() == 4 && lit_in_progress().len() == 10 && lit_resolved().len() == 8
        && lit_closed().len() == 6);
}

/// A serialized field name with its colon reads back, leaving the rest.
proof fn lemma_rt_key(key: Seq<char>, rest: Seq<char>)
    requires
        forall|i: int| 0 <= i < key.len() ==> plain_char(#[trigger] key[i]),
    ensures
        sp_key(ser_key(key) + rest, key) == Some(rest),
{
    let s = ser_key(key) + rest;
    assert(s[0] == '"');
    assert(!is_ws(s[0]));
    assert(sp_ws(s) == s);
    lemma_plain_chars(key, seq![':'] + rest);
    assert(s.drop_first() =~= key + (seq!['"'] + (seq![':'] + rest)));
    let r = seq![':'] + rest;
    assert(!is_ws(r[0]));
    assert(sp_ws(r) == r);
    assert(r[0] == ':');
    assert(r.drop_first() =~= rest);
}

/// Serialized id-list items read back, appending to the accumulator.
proof fn lemma_rt_ids_items(ids: Seq<u32>, acc: Seq<u32>, rest: Seq<char>)
    requires
        ids.len() >= 1,
    ensures
        sp_idlist_items(ser_ids(ids) + (seq![']'] + rest), acc) == Some((acc + ids, rest)),
    decreases ids.len(),
{
    let s = ser_ids(ids) + (seq![']'] + rest);
    if ids.len() == 1 {
        lemma_rt_num(ids[0], seq![']'] + rest);
        assert(s =~= ser_num(ids[0]) + (seq![']'] + rest));
        let r1 = seq![']'] + rest;
        assert(!is_ws(r1[0]));
        assert(sp_ws(r1) == r1);
        assert(r1[0] == ']');
        assert(r1.drop_first() =~= rest);
        assert(acc.push(ids[0]) =~= acc + ids);
    } else {
        let tail_ser = ser_ids(ids.drop_first());
        lemma_ser_num_shape(ids.drop_first()[0]);
        assert(tail_ser[0] == ser_num(ids.drop_first()[0])[0]) by {
            assert(ser_ids(ids.drop_first())[0] == ser_num(ids.drop_first()[0])[0]);
        }
        assert(is_digit(tail_ser[0]));
        let r1 = seq![','] + (tail_ser + (seq![']'] + rest));
        lemma_rt_num(ids[0], r1);
        assert(s =~= ser_num(ids[0]) + r1);
        assert(!is_ws(r1[0]));
        assert(sp_ws(r1) == r1);
        assert(r1[0] == ',');
        let r2pre = r1.drop_first();
        assert(r2pre =~= tail_ser + (seq![']'] + rest));
        assert(r2pre[0] == tail_ser[0]);
        assert(!is_ws(r2pre[0]));
        assert(sp_ws(r2pre) == r2pre);
        assert(r2pre.len() < s.len());
        lemma_rt_ids_items(ids.drop_first(), acc.push(ids[0]), rest);
        assert(acc.push(ids[0]) + ids.drop_first() =~= acc + ids);
    }
}

/// A serialized id list reads back as itself.
proof fn lemma_rt_idlist(ids: Seq<u32>, rest: Seq<char>)
    ensures
        sp_idlist(ser_idlist(ids) + rest) == Some((ids, rest)),
{
    let s = ser_idlist(ids) + rest;
    assert(!is_ws(s[0]));
    assert(sp_ws(s) == s);
    assert(s[0] == '[');
    let r = s.drop_first();
    assert(r =~= ser_ids(ids) + (seq![']'] + rest));
    if ids.len() == 0 {
        assert(r =~= seq![']'] + rest);
        assert(!is_ws(r[0]));
        assert(sp_ws(r) == r);
        assert(r[0] == ']');
        assert(r.drop_first() =~= rest);
        assert(Seq::<u32>::empty() =~= ids);
    } else {
        lemma_ser_num_shape(ids[0]);
        assert(r[0] == ser_num(ids[0])[0]) by {
            assert(ser_ids(ids)[0] == ser_num(ids[0])[0]);
        }
        assert(is_digit(r[0]));
        assert(!is_ws(r[0]) && r[0] != ']');
        assert(sp_ws(r) == r);
        lemma_rt_ids_items(ids, Seq::empty(), rest);
        assert(Seq::<u32>::empty() + ids =~= ids);
    }
}

/// A serialized story record reads back as itself.
#[verifier::rlimit(100)]
proof fn lemma_rt_story(st: StoryView, rest: Seq<char>)
    ensures
        sp_story_obj(ser_story(st) + rest) == Some((st, rest)),
{
    lemma_lits_plain();
    let s = ser_story(st) + rest;
    assert(!is_ws(s[0]));
    assert(sp_ws(s) == s);
    assert(s[0] == '{');
    let s1 = s.drop_first();
    let after_name = ser_string(st.name) + (seq![','] + ser_key(lit_description()) + ser_string(
        st.description,
    ) + seq![','] + ser_key(lit_status()) + ser_status(st.status) + seq!['}'] + rest);
    assert(s1 =~= ser_key(lit_name()) + after_name);
    lemma_rt_key(lit_name(), after_name);
    assert(after_name[0] == '"');
    assert(sp_ws(after_name) == after_name);
    let after_comma1 = seq![','] + (ser_key(lit_description()) + ser_string(st.description) + seq![
        ',',
    ] + ser_key(lit_status()) + ser_status(st.status) + seq!['}'] + rest);
    assert(after_name =~= ser_string(st.name) + after_comma1);
    lemma_rt_string(st.name, after_comma1);
    assert(sp_ws(after_comma1) == after_comma1);
    assert(after_comma1[0] == ',');
    let s4 = after_comma1.drop_first();
    let after_desc = ser_string(st.description) + (seq![','] + ser_key(lit_status()) + ser_status(
        st.status,
    ) + seq!['}'] + rest);
    assert(s4 =~= ser_key(lit_description()) + after_desc);
    lemma_rt_key(lit_description(), after_desc);
    assert(after_desc[0] == '"');
    assert(sp_ws(after_desc) == after_desc);
    let after_comma2 = seq![','] + (ser_key(lit_status()) + ser_status(st.status) + seq!['}']
        + rest);
    assert(after_desc =~= ser_string(st.description) + after_comma2);
    lemma_rt_string(st.description, after_comma2);
    assert(sp_ws(after_comma2) == after_comma2);
    assert(after_comma2[0] == ',');
    let s7 = after_comma2.drop_first();
    let after_status = ser_status(st.status) + (seq!['}'] + rest);
    assert(s7 =~= ser_key(lit_status()) + after_status);
    lemma_rt_key(lit_status(), after_status);
    assert(after_status[0] == '"');
    assert(sp_ws(after_status) == after_status);
    lemma_rt_status(st.status, seq!['}'] + rest);
    let closing = seq!['}'] + rest;
    assert(sp_ws(closing) == closing);
    assert(closing[0] == '}');
    assert(closing.drop_first() =~= rest);
    assert(StoryView { name: st.name, description: st.description, status: st.status } == st);
}

/// A serialized epic record reads back as itself.
#[verifier::rlimit(100)]
proof fn lemma_rt_epic(e: EpicView, rest: Seq<char>)
    ensures
        sp_epic_obj(ser_epic(e) + rest) == Some((e, rest)),
{
    lemma_lits_plain();
    let t9 = seq!['}'] + rest;
    let t8 = ser_idlist(e.stories) + t9;
    let t7 = ser_key(lit_stories()) + t8;
    let t6 = seq![','] + t7;
    let t5 = ser_status(e.status) + t6;
    let t4 = ser_key(lit_status()) + t5;
    let t3 = seq![','] + t4;
    let t2b = ser_string(e.description) + t3;
    let t2 = ser_key(lit_description()) + t2b;
    let t1c = seq![','] + t2;
    let t1b = ser_string(e.name) + t1c;
    let t1 = ser_key(lit_name()) + t1b;
    let s = seq!['{'] + t1;
    assert(ser_epic(e) + rest =~= s);
    assert(!is_ws(s[0]));
    assert(sp_ws(s) == s);
    assert(s[0] == '{');
    assert(s.drop_first() =~= t1);
    lemma_rt_key(lit_name(), t1b);
    assert(t1b[0] == '"');
    assert(sp_ws(t1b) == t1b);
    lemma_rt_string(e.name, t1c);
    assert(sp_ws(t1c) == t1c);
    assert(t1c[0] == ',');
    assert(t1c.drop_first() =~= t2);
    lemma_rt_key(lit_description(), t2b);
    assert(t2b[0] == '"');
    assert(sp_ws(t2b) == t2b);
    lemma_rt_string(e.description, t3);
    assert(sp_ws(t3) == t3);
    assert(t3[0] == ',');
    assert(t3.drop_first() =~= t4);
    lemma_rt_key(lit_status(), t5);
    assert(t5[0] == '"');
    assert(sp_ws(t5) == t5);
    lemma_rt_status(e.status, t6);
    assert(sp_ws(t6) == t6);
    assert(t6[0] == ',');
    assert(t6.drop_first() =~= t7);
    lemma_rt_key(lit_stories(), t8);
    lemma_rt_idlist(e.stories, t9);
    assert(sp_ws(t9) == t9);
    assert(t9[0] == '}');
    assert(t9.drop_first() =~= rest);
    assert(EpicView {
        name: e.name,
        description: e.description,
        status: e.status,
        stories: e.stories,
    } == e);
}

/// A serialized id key reads back as the id.
proof fn lemma_rt_id_key(k: u32, rest: Seq<char>)
    ensures
        sp_id_key((seq!['"'] + ser_num(k) + seq!['"']) + rest) == Some((k, rest)),
{
    let s = (seq!['"'] + ser_num(k) + seq!['"']) + rest;
    assert(!is_ws(s[0]));
    assert(sp_ws(s) == s);
    assert(s[0] == '"');
    lemma_ser_num_shape(k);
    assert(forall|i: int| 0 <= i < ser_num(k).len() ==> plain_char(#[trigger] ser_num(k)[i]));
    lemma_plain_chars(ser_num(k), rest);
    assert(s.drop_first() =~= ser_num(k) + (seq!['"'] + rest));
    lemma_rt_num(k, Seq::empty());
    assert(ser_num(k) + Seq::<char>::empty() =~= ser_num(k));
}

/// Insert a sequence of entries into a map, first to last.
pub open spec fn ins_all<V: View>(acc: Map<u32, V::V>, entries: Seq<(u32, V)>) -> Map<u32, V::V>
    decreases entries.len(),
{
    if entries.len() == 0 {
        acc
    } else {
        ins_all(acc.insert(entries[0].0, entries[0].1@), entries.drop_first())
    }
}

/// Inserting one more entry at the end inserts it into the folded map.
proof fn lemma_ins_all_push<V: View>(acc: Map<u32, V::V>, s: Seq<(u32, V)>, p: (u32, V))
    ensures
        ins_all(acc, s.push(p)) == ins_all(acc, s).insert(p.0, p.1@),
    decreases s.len(),
{
    if s.len() == 0 {
        assert(s.push(p)[0] == p);
        assert(s.push(p).drop_first() =~= Seq::<(u32, V)>::empty());
        assert(ins_all(acc, s.push(p)) == ins_all(
            acc.insert(p.0, p.1@),
            Seq::<(u32, V)>::empty(),
        ));
        assert(ins_all(acc.insert(p.0, p.1@), Seq::<(u32, V)>::empty()) == acc.insert(p.0, p.1@));
        assert(ins_all(acc, s) == acc);
    } else {
        assert(s.push(p)[0] == s[0]);
        assert(s.push(p).drop_first() =~= s.drop_first().push(p));
        lemma_ins_all_push(acc.insert(s[0].0, s[0].1@), s.drop_first(), p);
        assert(ins_all(acc, s.push(p)) == ins_all(
            acc.insert(s[0].0, s[0].1@),
            s.drop_first().push(p),
        ));
        assert(ins_all(acc, s) == ins_all(acc.insert(s[0].0, s[0].1@), s.drop_first()));
    }
}

/// Folding the entries of a table into the empty map gives the table's map.
proof fn lemma_ins_all_etm<V: View>(s: Seq<(u32, V)>)
    ensures
        ins_all(Map::<u32, V::V>::empty(), s) == entries_to_map(s),
    decreases s.len(),
{
    if s.len() > 0 {
        lemma_ins_all_etm(s.drop_last());
        assert(s =~= s.drop_last().push(s.last()));
        lemma_ins_all_push(Map::<u32, V::V>::empty(), s.drop_last(), s.last());
    }
}

/// Serialized epic entries read back, folding into the accumulator.
#[verifier::rlimit(100)]
proof fn lemma_rt_eentries(entries: Seq<(u32, Epic)>, acc: Map<u32, EpicView>, rest: Seq<char>)
    requires
        entries.len() >= 1,
    ensures
        sp_emap_items(ser_eentries(entries) + (seq!['}'] + rest), acc) == Some(
            (ins_all(acc, entries), rest),
        ),
    decreases entries.len(),
{
    let s = ser_eentries(entries) + (seq!['}'] + rest);
    let k = entries[0].0;
    let e = entries[0].1@;
    if entries.len() == 1 {
        let after_key = ser_epic(e) + (seq!['}'] + rest);
        assert(s =~= (seq!['"'] + ser_num(k) + seq!['"']) + (seq![':'] + after_key));
        lemma_rt_id_key(k, seq![':'] + after_key);
        let r = seq![':'] + after_key;
        assert(!is_ws(r[0]));
        assert(sp_ws(r) == r);
        assert(r[0] == ':');
        assert(r.drop_first() =~= after_key);
        lemma_rt_epic(e, seq!['}'] + rest);
        let closing = seq!['}'] + rest;
        assert(sp_ws(closing) == closing);
        assert(closing[0] == '}');
        assert(closing.drop_first() =~= rest);
        assert(ins_all(acc, entries) == acc.insert(k, e)) by {
            assert(entries.drop_first() =~= Seq::<(u32, Epic)>::empty());
        }
    } else {
        let tail_entries = entries.drop_first();
        let tail_ser = ser_eentries(tail_entries);
        let after_key = ser_epic(e) + (seq![','] + tail_ser + (seq!['}'] + rest));
        assert(s =~= (seq!['"'] + ser_num(k) + seq!['"']) + (seq![':'] + after_key));
        lemma_rt_id_key(k, seq![':'] + after_key);
        let r = seq![':'] + after_key;
        assert(!is_ws(r[0]));
        assert(sp_ws(r) == r);
        assert(r[0] == ':');
        assert(r.drop_first() =~= after_key);
        lemma_rt_epic(e, seq![','] + tail_ser + (seq!['}'] + rest));
        let r4 = seq![','] + tail_ser + (seq!['}'] + rest);
        assert(sp_ws(r4) == r4);
        assert(r4[0] == ',');
        let r5 = r4.drop_first();
        assert(r5 =~= tail_ser + (seq!['}'] + rest));
        assert(r5.len() < s.len());
        lemma_rt_eentries(tail_entries, acc.insert(k, e), rest);
    }
}

/// Serialized story entries read back, folding into the accumulator.
#[verifier::rlimit(100)]
proof fn lemma_rt_sentries(entries: Seq<(u32, Story)>, acc: Map<u32, StoryView>, rest: Seq<char>)
    requires
        entries.len() >= 1,
    ensures
        sp_smap_items(ser_sentries(entries) + (seq!['}'] + rest), acc) == Some(
            (ins_all(acc, entries), rest),
        ),
    decreases entries.len(),
{
    let s = ser_sentries(entries) + (seq!['}'] + rest);
    let k = entries[0].0;
    let e = entries[0].1@;
    if entries.len() == 1 {
        let after_key = ser_story(e) + (seq!['}'] + rest);
        assert(s =~= (seq!['"'] + ser_num(k) + seq!['"']) + (seq![':'] + after_key));
        lemma_rt_id_key(k, seq![':'] + after_key);
        let r = seq![':'] + after_key;
        assert(!is_ws(r[0]));
        assert(sp_ws(r) == r);
        assert(r[0] == ':');
        assert(r.drop_first() =~= after_key);
        lemma_rt_story(e, seq!['}'] + rest);
        let closing = seq!['}'] + rest;
        assert(sp_ws(closing) == closing);
        assert(closing[0] == '}');
        assert(closing.drop_first() =~= rest);
        assert(ins_all(acc, entries) == acc.insert(k, e)) by {
            assert(entries.drop_first() =~= Seq::<(u32, Story)>::empty());
        }
    } else {
        let tail_entries = entries.drop_first();
        let tail_ser = ser_sentries(tail_entries);
        let after_key = ser_story(e) + (seq![','] + tail_ser + (seq!['}'] + rest));
        assert(s =~= (seq!['"'] + ser_num(k) + seq!['"']) + (seq![':'] + after_key));
        lemma_rt_id_key(k, seq![':'] + after_key);
        let r = seq![':'] + after_key;
        assert(!is_ws(r[0]));
        assert(sp_ws(r) == r);
        assert(r[0] == ':');
        assert(r.drop_first() =~= after_key);
        lemma_rt_story(e, seq![','] + tail_ser + (seq!['}'] + rest));
        let r4 = seq![','] + tail_ser + (seq!['}'] + rest);
        assert(sp_ws(r4) == r4);
        assert(r4[0] == ',');
        let r5 = r4.drop_first();
        assert(r5 =~= tail_ser + (seq!['}'] + rest));
        assert(r5.len() < s.len());
        lemma_rt_sentries(tail_entries, acc.insert(k, e), rest);
    }
}

/// A serialized epic map reads back as the map the entries describe.
proof fn lemma_rt_emap(entries: Seq<(u32, Epic)>, rest: Seq<char>)
    ensures
        sp_emap((seq!['{'] + ser_eentries(entries) + seq!['}']) + rest) == Some(
            (entries_to_map(entries), rest),
        ),
{
    let s = (seq!['{'] + ser_eentries(entries) + seq!['}']) + rest;
    assert(!is_ws(s[0]));
    assert(sp_ws(s) == s);
    assert(s[0] == '{');
    let r1 = s.drop_first();
    assert(r1 =~= ser_eentries(entries) + (seq!['}'] + rest));
    lemma_ins_all_etm::<Epic>(entries);
    if entries.len() == 0 {
        assert(r1 =~= seq!['}'] + rest);
        assert(!is_ws(r1[0]));
        assert(sp_ws(r1) == r1);
        assert(r1[0] == '}');
        assert(r1.drop_first() =~= rest);
    } else {
        assert(r1[0] == '"') by {
            assert(ser_eentries(entries)[0] == '"');
        }
        assert(!is_ws(r1[0]) && r1[0] != '}');
        assert(sp_ws(r1) == r1);
        lemma_rt_eentries(entries, Map::empty(), rest);
    }
}

/// A serialized story map reads back as the map the entries describe.
proof fn lemma_rt_smap(entries: Seq<(u32, Story)>, rest: Seq<char>)
    ensures
        sp_smap((seq!['{'] + ser_sentries(entries) + seq!['}']) + rest) == Some(
            (entries_to_map(entries), rest),
        ),
{
    let s = (seq!['{'] + ser_sentries(entries) + seq!['}']) + rest;
    assert(!is_ws(s[0]));
    assert(sp_ws(s) == s);
    assert(s[0] == '{');
    let r1 = s.drop_first();
    assert(r1 =~= ser_sentries(entries) + (seq!['}'] + rest));
    lemma_ins_all_etm::<Story>(entries);
    if entries.len() == 0 {
        assert(r1 =~= seq!['}'] + rest);
        assert(!is_ws(r1[0]));
        assert(sp_ws(r1) == r1);
        assert(r1[0] == '}');
        assert(r1.drop_first() =~= rest);
    } else {
        assert(r1[0] == '"') by {
            assert(ser_sentries(entries)[0] == '"');
        }
        assert(!is_ws(r1[0]) && r1[0] != '}');
        assert(sp_ws(r1) == r1);
        lemma_rt_sentries(entries, Map::empty(), rest);
    }
}

/// Round trip: any state, written as a document and read back, is the same
/// state — field for field, nested maps and sequences included. Map order
/// cannot matter, since a state's view keeps its entities as maps.
#[verifier::rlimit(100)]
pub proof fn lemma_round_trip(db: DBState)
    ensures
        sp_state(ser_state(db)) == Some(db@),
{
    lemma_lits_plain();
    let emap_ser = seq!['{'] + ser_eentries(db.epics.spec_entries()) + seq!['}'];
    let smap_ser = seq!['{'] + ser_sentries(db.stories.spec_entries()) + seq!['}'];
    let s = ser_state(db);
    assert(!is_ws(s[0]));
    assert(sp_ws(s) == s);
    assert(s[0] == '{');
    let s1 = s.drop_first();
    let after_counter_key = ser_num(db.last_item_id) + (seq![','] + ser_key(lit_epics())
        + emap_ser + seq![','] + ser_key(lit_stories()) + smap_ser + seq!['}']);
    assert(s1 =~= ser_key(lit_last_item_id()) + after_counter_key);
    lemma_rt_key(lit_last_item_id(), after_counter_key);
    lemma_ser_num_shape(db.last_item_id);
    assert(after_counter_key[0] == ser_num(db.last_item_id)[0]);
    assert(is_digit(after_counter_key[0]));
    assert(!is_ws(after_counter_key[0]));
    assert(sp_ws(after_counter_key) == after_counter_key);
    let after_comma1 = seq![','] + (ser_key(lit_epics()) + emap_ser + seq![','] + ser_key(
        lit_stories(),
    ) + smap_ser + seq!['}']);
    assert(after_counter_key =~= ser_num(db.last_item_id) + after_comma1);
    lemma_rt_num(db.last_item_id, after_comma1);
    assert(sp_ws(after_comma1) == after_comma1);
    assert(after_comma1[0] == ',');
    let s4 = after_comma1.drop_first();
    let after_emap = emap_ser + (seq![','] + ser_key(lit_stories()) + smap_ser + seq!['}']);
    assert(s4 =~= ser_key(lit_epics()) + after_emap);
    lemma_rt_key(lit_epics(), after_emap);
    let after_comma2 = seq![','] + (ser_key(lit_stories()) + smap_ser + seq!['}']);
    assert(after_emap =~= emap_ser + after_comma2);
    lemma_rt_emap(db.epics.spec_entries(), after_comma2);
    assert(sp_ws(after_comma2) == after_comma2);
    assert(after_comma2[0] == ',');
    let s7 = after_comma2.drop_first();
    let after_smap = smap_ser + seq!['}'];
    assert(s7 =~= ser_key(lit_stories()) + after_smap);
    lemma_rt_key(lit_stories(), after_smap);
    assert(after_smap =~= smap_ser + seq!['}']);
    lemma_rt_smap(db.stories.spec_entries(), seq!['}']);
    let closing = seq!['}'];
    assert(sp_ws(closing) == closing);
    assert(closing[0] == '}');
    assert(closing.drop_first() =~= Seq::<char>::empty());
    assert(sp_ws(Seq::<char>::empty()).len() == 0);
    db.epics.lemma_view();
    db.stories.lemma_view();
}


} // verus!
