//! Recognizers for the bits of text the bot cares about: custom emotes,
//! map and mapset URLs, and inline modifier filters. Each grammar is the
//! project's own; the functions scan for the leftmost occurrence.

use vstd::prelude::*;

use crate::osu::{ModSelection, Mods};
use crate::text::{dec_value, is_digit, is_digit_char, lower_char, lower_seq, lowercased, parse_u64_range};

verus! {

/// The literal `lit` occurs at position `i` of `s`.
pub open spec fn lit_at(s: Seq<char>, i: int, lit: Seq<char>) -> bool {
    &&& 0 <= i
    &&& i + lit.len() <= s.len()
    &&& s.subrange(i, i + lit.len()) == lit
}

fn lit_matches_at(s: &str, slen: usize, i: usize, lit: &str) -> (r: bool)
    requires
        slen == s@.len(),
        i <= slen,
    ensures
        r == lit_at(s@, i as int, lit@),
{
    let llen = lit.unicode_len();
    if llen > slen - i {
        return false;
    }
    let mut k: usize = 0;
    while k < llen
        invariant
            k <= llen,
            llen == lit@.len(),
            slen == s@.len(),
            i + llen <= slen,
            forall|j: int| 0 <= j < k ==> s@[i + j] == lit@[j],
        decreases llen - k,
    {
        if s.get_char(i + k) != lit.get_char(k) {
            proof {
                assert(s@.subrange(i as int, i + llen)[k as int] == s@[i + k]);
            }
            return false;
        }
        k += 1;
    }
    proof {
        assert(s@.subrange(i as int, i + llen) =~= lit@);
    }
    true
}

/// End of the maximal run of decimal digits starting at `from`.
fn digit_run_end(s: &str, slen: usize, from: usize) -> (r: usize)
    requires
        slen == s@.len(),
        from <= slen,
    ensures
        from <= r <= slen,
        forall|k: int| from <= k < r ==> is_digit_char(#[trigger] s@[k]),
        r < slen ==> !is_digit_char(s@[r as int]),
{
    let mut r: usize = from;
    while r < slen && is_digit(s.get_char(r))
        invariant
            from <= r <= slen,
            slen == s@.len(),
            forall|k: int| from <= k < r ==> is_digit_char(#[trigger] s@[k]),
        decreases slen - r,
    {
        r += 1;
    }
    r
}

/// A custom-emote token spelled out by its witness positions: `<` at `i`,
/// an optional `a`, `:` at `c1`, a non-empty name without `:` or newline,
/// `:` at `c2`, at least one digit, `>` at `e`.
pub open spec fn emote_at(s: Seq<char>, i: int, c1: int, c2: int, e: int) -> bool {
    &&& 0 <= i
    &&& e < s.len()
    &&& s[i] == '<'
    &&& (c1 == i + 1 || (c1 == i + 2 && s[i + 1] == 'a'))
    &&& s[c1] == ':'
    &&& c2 > c1 + 1
    &&& s[c2] == ':'
    &&& (forall|k: int| c1 < k < c2 ==> s[k] != ':' && s[k] != '\n')
    &&& e > c2 + 1
    &&& (forall|k: int| c2 < k < e ==> is_digit_char(#[trigger] s[k]))
    &&& s[e] == '>'
}

/// The message holds a custom emote anywhere.
pub open spec fn has_custom_emote(s: Seq<char>) -> bool {
    exists|i: int, c1: int, c2: int, e: int| emote_at(s, i, c1, c2, e)
}

/// Check whether an emote starts at `i` with its first colon at `c1`.
fn emote_from_colon(s: &str, slen: usize, i: usize, c1: usize) -> (r: bool)
    requires
        slen == s@.len(),
        i < slen,
        c1 < slen,
        s@[c1 as int] == ':',
        s@[i as int] == '<',
        c1 as int == i + 1 || (c1 as int == i + 2 && s@[i + 1] == 'a'),
    ensures
        r == exists|c2: int, e: int| emote_at(s@, i as int, c1 as int, c2, e),
{
    // The name: scan to the first `:` or newline.
    let mut c2: usize = c1 + 1;
    while c2 < slen && s.get_char(c2) != ':' && s.get_char(c2) != '\n'
        invariant
            c1 < c2 <= slen,
            slen == s@.len(),
            forall|k: int| c1 < k < c2 ==> s@[k] != ':' && s@[k] != '\n',
        decreases slen - c2,
    {
        c2 += 1;
    }
    if c2 >= slen || s.get_char(c2) == '\n' || c2 == c1 + 1 {
        proof {
            assert forall|c2x: int, e: int| !emote_at(s@, i as int, c1 as int, c2x, e) by {
                if emote_at(s@, i as int, c1 as int, c2x, e) {
                    assert(c2x > c2);
                    if (c2 as int) < s@.len() {
                        assert(s@[c2 as int] != ':' && s@[c2 as int] != '\n');
                    }
                }
            }
        }
        return false;
    }
    // The id: a maximal digit run, then `>`.
    let e = digit_run_end(s, slen, c2 + 1);
    if e > c2 + 1 && e < slen && s.get_char(e) == '>' {
        proof {
            assert(emote_at(s@, i as int, c1 as int, c2 as int, e as int));
        }
        return true;
    }
    proof {
        assert forall|c2x: int, ex: int| !emote_at(s@, i as int, c1 as int, c2x, ex) by {
            if emote_at(s@, i as int, c1 as int, c2x, ex) {
                assert(c2x == c2);
                assert(ex <= e);
                if ex < e {
                    assert(is_digit_char(s@[ex]));
                }
                assert(ex == e);
            }
        }
    }
    false
}

/// Whether the message holds a custom-emote token.
pub fn is_custom_emote(msg: &str) -> (r: bool)
    ensures
        r == has_custom_emote(msg@),
{
    let slen = msg.unicode_len();
    let mut i: usize = 0;
    while i < slen
        invariant
            i <= slen,
            slen == msg@.len(),
            forall|j: int, c1: int, c2: int, e: int|
                0 <= j < i ==> !emote_at(msg@, j, c1, c2, e),
        decreases slen - i,
    {
        if msg.get_char(i) == '<' {
            let mut found = false;
            if slen - i > 1 && msg.get_char(i + 1) == ':' {
                if emote_from_colon(msg, slen, i, i + 1) {
                    found = true;
                }
            }
            if !found && slen - i > 2 && msg.get_char(i + 1) == 'a' && msg.get_char(i + 2) == ':' {
                if emote_from_colon(msg, slen, i, i + 2) {
                    found = true;
                }
            }
            if found {
                return true;
            }
            proof {
                assert forall|c1: int, c2: int, e: int| !emote_at(
                    msg@,
                    i as int,
                    c1,
                    c2,
                    e,
                ) by {
                    if emote_at(msg@, i as int, c1, c2, e) {
                        assert(msg@[c1] == ':');
                        assert(c1 < msg@.len());
                    }
                }
            }
        } else {
            proof {
                assert forall|c1: int, c2: int, e: int| !emote_at(
                    msg@,
                    i as int,
                    c1,
                    c2,
                    e,
                ) by {}
            }
        }
        i += 1;
    }
    false
}

/// The first position at or after `i` where `p` holds, if any.
pub open spec fn first_from(s: Seq<char>, p: spec_fn(Seq<char>, int) -> bool, i: int) -> Option<
    int,
>
    decreases s.len() - i,
{
    if i < 0 || i >= s.len() {
        None
    } else if p(s, i) {
        Some(i)
    } else {
        first_from(s, p, i + 1)
    }
}

proof fn lemma_first_from_step(s: Seq<char>, p: spec_fn(Seq<char>, int) -> bool, k: int)
    requires
        0 <= k,
        forall|j: int| 0 <= j < k ==> !(#[trigger] p(s, j)),
    ensures
        first_from(s, p, 0) == first_from(s, p, k),
    decreases k,
{
    if k > 0 {
        lemma_first_from_step(s, p, k - 1);
        if k - 1 < s.len() {
            assert(first_from(s, p, k - 1) == first_from(s, p, k));
        }
    }
}

proof fn lemma_first_from_found(s: Seq<char>, p: spec_fn(Seq<char>, int) -> bool, i: int)
    requires
        0 <= i < s.len(),
        p(s, i),
        forall|j: int| 0 <= j < i ==> !(#[trigger] p(s, j)),
    ensures
        first_from(s, p, 0) == Some(i),
{
    lemma_first_from_step(s, p, i);
}

proof fn lemma_first_from_none(s: Seq<char>, p: spec_fn(Seq<char>, int) -> bool)
    requires
        forall|j: int| 0 <= j < s.len() ==> !(#[trigger] p(s, j)),
    ensures
        first_from(s, p, 0) is None,
{
    lemma_first_from_step(s, p, s.len() as int);
}

/// End of the maximal digit run from `from`, as a specification.
pub open spec fn spec_run_end(s: Seq<char>, from: int) -> int
    decreases s.len() - from,
{
    if from < 0 || from >= s.len() || !is_digit_char(s[from]) {
        from
    } else {
        spec_run_end(s, from + 1)
    }
}

proof fn lemma_run_end(s: Seq<char>, from: int, r: int)
    requires
        0 <= from <= r <= s.len(),
        forall|k: int| from <= k < r ==> is_digit_char(#[trigger] s[k]),
        r < s.len() ==> !is_digit_char(s[r]),
    ensures
        spec_run_end(s, from) == r,
    decreases r - from,
{
    if from < r {
        lemma_run_end(s, from + 1, r);
    }
}

/// The value of the digit run at `from`, when it is non-empty and fits.
pub open spec fn spec_run_value_u32(s: Seq<char>, from: int) -> Option<u32> {
    let e = spec_run_end(s, from);
    if e == from || !(0 <= from <= s.len()) {
        None
    } else if dec_value(s.subrange(from, e)) <= u32::MAX {
        Some(dec_value(s.subrange(from, e)) as u32)
    } else {
        None
    }
}

/// Parse the digit run at `from` as a map or mapset id.
fn run_value_u32(s: &str, slen: usize, from: usize) -> (r: Option<u32>)
    requires
        slen == s@.len(),
        from <= slen,
    ensures
        r == spec_run_value_u32(s@, from as int),
{
    let e = digit_run_end(s, slen, from);
    proof {
        lemma_run_end(s@, from as int, e as int);
    }
    if e == from {
        return None;
    }
    match parse_u64_range(s, from, e) {
        Some(v) => {
            if v <= 0xFFFF_FFFF {
                Some(v as u32)
            } else {
                None
            }
        },
        None => {
            proof {
                assert(dec_value(s@.subrange(from as int, e as int)) > u64::MAX);
            }
            None
        },
    }
}

/// The scoring site's base URL occurs at `i`.
pub open spec fn osu_base_at(s: Seq<char>, i: int) -> bool {
    lit_at(s, i, "https://osu.ppy.sh/"@)
}

pub open spec fn p_osu_base() -> spec_fn(Seq<char>, int) -> bool {
    |s2: Seq<char>, j: int| osu_base_at(s2, j)
}

pub open spec fn p_map_old() -> spec_fn(Seq<char>, int) -> bool {
    |s2: Seq<char>, j: int| map_old_at(s2, j)
}

pub open spec fn p_mapset_old() -> spec_fn(Seq<char>, int) -> bool {
    |s2: Seq<char>, j: int| mapset_old_at(s2, j)
}

pub open spec fn p_map_new() -> spec_fn(Seq<char>, int) -> bool {
    |s2: Seq<char>, j: int| map_new_at(s2, j)
}

/// An old-style map URL starts at `i`: the base URL, `b/` or `beatmaps/`,
/// and at least one digit.
pub open spec fn map_old_at(s: Seq<char>, i: int) -> bool {
    ||| (lit_at(s, i, "https://osu.ppy.sh/beatmaps/"@) && i + "https://osu.ppy.sh/beatmaps/"@.len()
        < s.len() && is_digit_char(s[i + "https://osu.ppy.sh/beatmaps/"@.len()]))
    ||| (lit_at(s, i, "https://osu.ppy.sh/b/"@) && i + "https://osu.ppy.sh/b/"@.len() < s.len()
        && is_digit_char(s[i + "https://osu.ppy.sh/b/"@.len()]))
}

/// Where the old-style map id's digits start.
pub open spec fn map_old_digits(s: Seq<char>, i: int) -> int {
    if lit_at(s, i, "https://osu.ppy.sh/beatmaps/"@) {
        i + "https://osu.ppy.sh/beatmaps/"@.len()
    } else {
        i + "https://osu.ppy.sh/b/"@.len()
    }
}

/// An old-style mapset URL starts at `i`.
pub open spec fn mapset_old_at(s: Seq<char>, i: int) -> bool {
    lit_at(s, i, "https://osu.ppy.sh/s/"@) && i + "https://osu.ppy.sh/s/"@.len() < s.len()
        && is_digit_char(s[i + "https://osu.ppy.sh/s/"@.len()])
}

/// A new-style mapset URL starts at `i`: the base URL, `beatmapsets/`,
/// and at least one digit.
pub open spec fn map_new_at(s: Seq<char>, i: int) -> bool {
    lit_at(s, i, "https://osu.ppy.sh/beatmapsets/"@) && i
        + "https://osu.ppy.sh/beatmapsets/"@.len() < s.len() && is_digit_char(
        s[i + "https://osu.ppy.sh/beatmapsets/"@.len()],
    )
}

/// Where a new-style URL's map-id digits start, when the URL carries the
/// per-map fragment: after the mapset digits either `#` and a mode name
/// followed by `/`, or a channel-mention token followed by `/`.
pub open spec fn map_new_map_digits(s: Seq<char>, i: int) -> Option<int> {
    let g1e = spec_run_end(s, i + "https://osu.ppy.sh/beatmapsets/"@.len());
    if lit_at(s, g1e, "#osu/"@) {
        Some(g1e + "#osu/"@.len())
    } else if lit_at(s, g1e, "#mania/"@) {
        Some(g1e + "#mania/"@.len())
    } else if lit_at(s, g1e, "#taiko/"@) {
        Some(g1e + "#taiko/"@.len())
    } else if lit_at(s, g1e, "#fruits/"@) {
        Some(g1e + "#fruits/"@.len())
    } else if lit_at(s, g1e, "<#"@) && {
        let e2 = spec_run_end(s, g1e + "<#"@.len());
        e2 > g1e + "<#"@.len() && e2 + 1 < s.len() && s[e2] == '>' && s[e2 + 1] == '/'
    } {
        Some(spec_run_end(s, g1e + "<#"@.len()) + 2)
    } else {
        None
    }
}

/// What a map-id search of the whole message yields.
///
/// A message that is one bare number is that id. Otherwise a message
/// without the scoring site's base URL yields nothing; with it, the
/// leftmost old-style map URL's digits win, else the leftmost new-style
/// URL's per-map digits. A number too large for an id yields nothing.
pub open spec fn spec_map_id(s: Seq<char>) -> Option<u32> {
    if s.len() >= 1 && (forall|k: int| 0 <= k < s.len() ==> is_digit_char(#[trigger] s[k])) {
        if dec_value(s) <= u32::MAX {
            Some(dec_value(s) as u32)
        } else {
            None
        }
    } else if first_from(s, p_osu_base(), 0) is None {
        None
    } else {
        match first_from(s, p_map_old(), 0) {
            Some(i) => spec_run_value_u32(s, map_old_digits(s, i)),
            None => match first_from(s, p_map_new(), 0) {
                Some(i) => match map_new_map_digits(s, i) {
                    Some(d) => spec_run_value_u32(s, d),
                    None => None,
                },
                None => None,
            },
        }
    }
}

/// What a mapset-id search of the whole message yields: like the map-id
/// search, but the old-style mapset URL wins, else the new-style URL's
/// mapset digits.
pub open spec fn spec_mapset_id(s: Seq<char>) -> Option<u32> {
    if s.len() >= 1 && (forall|k: int| 0 <= k < s.len() ==> is_digit_char(#[trigger] s[k])) {
        if dec_value(s) <= u32::MAX {
            Some(dec_value(s) as u32)
        } else {
            None
        }
    } else if first_from(s, p_osu_base(), 0) is None {
        None
    } else {
        match first_from(s, p_mapset_old(), 0) {
            Some(i) => spec_run_value_u32(s, i + "https://osu.ppy.sh/s/"@.len()),
            None => match first_from(s, p_map_new(), 0) {
                Some(i) => spec_run_value_u32(
                    s,
                    i + "https://osu.ppy.sh/beatmapsets/"@.len(),
                ),
                None => None,
            },
        }
    }
}

/// The whole message is one bare (decimal) number; its value if it fits.
fn parse_bare_number(msg: &str, slen: usize) -> (r: Option<Option<u32>>)
    requires
        slen == msg@.len(),
    ensures
        match r {
            Some(v) => slen >= 1 && (forall|k: int|
                0 <= k < msg@.len() ==> is_digit_char(#[trigger] msg@[k])) && v
                == spec_run_value_u32(msg@, 0),
            None => !(slen >= 1 && (forall|k: int|
                0 <= k < msg@.len() ==> is_digit_char(#[trigger] msg@[k]))),
        },
{
    if slen == 0 {
        return None;
    }
    let e = digit_run_end(msg, slen, 0);
    proof {
        lemma_run_end(msg@, 0, e as int);
    }
    if e < slen {
        return None;
    }
    Some(run_value_u32(msg, slen, 0))
}

fn matches_map_old_at(s: &str, slen: usize, i: usize) -> (r: bool)
    requires
        slen == s@.len(),
        i <= slen,
    ensures
        r == map_old_at(s@, i as int),
{
    let lit1 = "https://osu.ppy.sh/beatmaps/";
    let l1 = lit1.unicode_len();
    if lit_matches_at(s, slen, i, lit1) {
        if slen - i > l1 && is_digit(s.get_char(i + l1)) {
            return true;
        }
    }
    let lit2 = "https://osu.ppy.sh/b/";
    let l2 = lit2.unicode_len();
    if lit_matches_at(s, slen, i, lit2) {
        if slen - i > l2 && is_digit(s.get_char(i + l2)) {
            return true;
        }
    }
    false
}

fn matches_mapset_old_at(s: &str, slen: usize, i: usize) -> (r: bool)
    requires
        slen == s@.len(),
        i <= slen,
    ensures
        r == mapset_old_at(s@, i as int),
{
    let lit = "https://osu.ppy.sh/s/";
    let l = lit.unicode_len();
    lit_matches_at(s, slen, i, lit) && slen - i > l && is_digit(s.get_char(i + l))
}

fn matches_map_new_at(s: &str, slen: usize, i: usize) -> (r: bool)
    requires
        slen == s@.len(),
        i <= slen,
    ensures
        r == map_new_at(s@, i as int),
{
    let lit = "https://osu.ppy.sh/beatmapsets/";
    let l = lit.unicode_len();
    lit_matches_at(s, slen, i, lit) && slen - i > l && is_digit(s.get_char(i + l))
}

fn matches_osu_base_at(s: &str, slen: usize, i: usize) -> (r: bool)
    requires
        slen == s@.len(),
        i <= slen,
    ensures
        r == osu_base_at(s@, i as int),
{
    lit_matches_at(s, slen, i, "https://osu.ppy.sh/")
}

/// Whether the message mentions the scoring site at all.
fn contains_osu_base(s: &str, slen: usize) -> (r: bool)
    requires
        slen == s@.len(),
    ensures
        r == (first_from(s@, p_osu_base(), 0) is Some),
{
    let mut i: usize = 0;
    while i < slen
        invariant
            i <= slen,
            slen == s@.len(),
            forall|j: int| 0 <= j < i ==> !osu_base_at(s@, j),
        decreases slen - i,
    {
        if matches_osu_base_at(s, slen, i) {
            proof {
                lemma_first_from_found(s@, p_osu_base(), i as int);
                assert(p_osu_base()(s@, i as int));
            }
            return true;
        }
        i += 1;
    }
    proof {
        lemma_first_from_none(s@, p_osu_base());
    }
    false
}

/// Extract a map id from the message: a bare id, an old-style map URL, or
/// a new-style URL with a per-map fragment.
pub fn get_osu_map_id(msg: &str) -> (r: Option<u32>)
    ensures
        r == spec_map_id(msg@),
{
    let slen = msg.unicode_len();
    if let Some(v) = parse_bare_number(msg, slen) {
        proof {
            lemma_run_end(msg@, 0, msg@.len() as int);
            assert(msg@.subrange(0, msg@.len() as int) =~= msg@);
        }
        return v;
    }
    if !contains_osu_base(msg, slen) {
        return None;
    }
    // Leftmost old-style URL.
    let mut i: usize = 0;
    while i < slen
        invariant
            i <= slen,
            slen == msg@.len(),
            !(slen >= 1 && (forall|k: int|
                0 <= k < msg@.len() ==> is_digit_char(#[trigger] msg@[k]))),
            first_from(msg@, p_osu_base(), 0) is Some,
            forall|j: int| 0 <= j < i ==> !(#[trigger] p_map_old()(msg@, j)),
        decreases slen - i,
    {
        if matches_map_old_at(msg, slen, i) {
            proof {
                assert(p_map_old()(msg@, i as int));
                lemma_first_from_found(msg@, p_map_old(), i as int);
            }
            let lit1 = "https://osu.ppy.sh/beatmaps/";
            let l1 = lit1.unicode_len();
            let start = if lit_matches_at(msg, slen, i, lit1) {
                i + l1
            } else {
                let lit2 = "https://osu.ppy.sh/b/";
                i + lit2.unicode_len()
            };
            proof {
                assert(start as int == map_old_digits(msg@, i as int));
            }
            return run_value_u32(msg, slen, start);
        }
        proof {
            assert(!(p_map_old()(msg@, i as int)));
        }
        i += 1;
    }
    proof {
        lemma_first_from_none(msg@, p_map_old());
    }
    // Leftmost new-style URL, needing the per-map fragment.
    let mut i: usize = 0;
    while i < slen
        invariant
            i <= slen,
            slen == msg@.len(),
            !(slen >= 1 && (forall|k: int|
                0 <= k < msg@.len() ==> is_digit_char(#[trigger] msg@[k]))),
            first_from(msg@, p_osu_base(), 0) is Some,
            first_from(msg@, p_map_old(), 0) is None,
            forall|j: int| 0 <= j < i ==> !(#[trigger] p_map_new()(msg@, j)),
        decreases slen - i,
    {
        if matches_map_new_at(msg, slen, i) {
            proof {
                assert(p_map_new()(msg@, i as int));
                lemma_first_from_found(msg@, p_map_new(), i as int);
            }
            let l = "https://osu.ppy.sh/beatmapsets/".unicode_len();
            let g1e = digit_run_end(msg, slen, i + l);
            proof {
                lemma_run_end(msg@, i + l, g1e as int);
            }
            let frag_len: usize = if lit_matches_at(msg, slen, g1e, "#osu/") {
                "#osu/".unicode_len()
            } else if lit_matches_at(msg, slen, g1e, "#mania/") {
                "#mania/".unicode_len()
            } else if lit_matches_at(msg, slen, g1e, "#taiko/") {
                "#taiko/".unicode_len()
            } else if lit_matches_at(msg, slen, g1e, "#fruits/") {
                "#fruits/".unicode_len()
            } else {
                0
            };
            proof {
                reveal_strlit("#osu/");
                reveal_strlit("#mania/");
                reveal_strlit("#taiko/");
                reveal_strlit("#fruits/");
            }
            if frag_len > 0 {
                proof {
                    assert(map_new_map_digits(msg@, i as int) == Some(g1e + frag_len));
                }
                return run_value_u32(msg, slen, g1e + frag_len);
            }
            if lit_matches_at(msg, slen, g1e, "<#") {
                let l2 = "<#".unicode_len();
                let e2 = digit_run_end(msg, slen, g1e + l2);
                proof {
                    lemma_run_end(msg@, g1e + l2, e2 as int);
                }
                if e2 > g1e + l2 && slen - e2 > 1 && msg.get_char(e2) == '>' && msg.get_char(
                    e2 + 1,
                ) == '/' {
                    proof {
                        reveal_strlit("<#");
                        assert(map_new_map_digits(msg@, i as int) == Some(e2 + 2));
                    }
                    return run_value_u32(msg, slen, e2 + 2);
                }
            }
            proof {
                assert(map_new_map_digits(msg@, i as int) is None);
            }
            return None;
        }
        proof {
            assert(!(p_map_new()(msg@, i as int)));
        }
        i += 1;
    }
    proof {
        lemma_first_from_none(msg@, p_map_new());
    }
    None
}

/// Extract a mapset id from the message: a bare id, an old-style mapset
/// URL, or a new-style URL's mapset digits.
pub fn get_osu_mapset_id(msg: &str) -> (r: Option<u32>)
    ensures
        r == spec_mapset_id(msg@),
{
    let slen = msg.unicode_len();
    if let Some(v) = parse_bare_number(msg, slen) {
        proof {
            lemma_run_end(msg@, 0, msg@.len() as int);
            assert(msg@.subrange(0, msg@.len() as int) =~= msg@);
        }
        return v;
    }
    if !contains_osu_base(msg, slen) {
        return None;
    }
    let mut i: usize = 0;
    while i < slen
        invariant
            i <= slen,
            slen == msg@.len(),
            !(slen >= 1 && (forall|k: int|
                0 <= k < msg@.len() ==> is_digit_char(#[trigger] msg@[k]))),
            first_from(msg@, p_osu_base(), 0) is Some,
            forall|j: int| 0 <= j < i ==> !(#[trigger] p_mapset_old()(msg@, j)),
        decreases slen - i,
    {
        if matches_mapset_old_at(msg, slen, i) {
            proof {
                assert(p_mapset_old()(msg@, i as int));
                lemma_first_from_found(msg@, p_mapset_old(), i as int);
            }
            let l = "https://osu.ppy.sh/s/".unicode_len();
            return run_value_u32(msg, slen, i + l);
        }
        proof {
            assert(!(p_mapset_old()(msg@, i as int)));
        }
        i += 1;
    }
    proof {
        lemma_first_from_none(msg@, p_mapset_old());
    }
    let mut i: usize = 0;
    while i < slen
        invariant
            i <= slen,
            slen == msg@.len(),
            !(slen >= 1 && (forall|k: int|
                0 <= k < msg@.len() ==> is_digit_char(#[trigger] msg@[k]))),
            first_from(msg@, p_osu_base(), 0) is Some,
            first_from(msg@, p_mapset_old(), 0) is None,
            forall|j: int| 0 <= j < i ==> !(#[trigger] p_map_new()(msg@, j)),
        decreases slen - i,
    {
        if matches_map_new_at(msg, slen, i) {
            proof {
                assert(p_map_new()(msg@, i as int));
                lemma_first_from_found(msg@, p_map_new(), i as int);
            }
            let l = "https://osu.ppy.sh/beatmapsets/".unicode_len();
            return run_value_u32(msg, slen, i + l);
        }
        proof {
            assert(!(p_map_new()(msg@, i as int)));
        }
        i += 1;
    }
    proof {
        lemma_first_from_none(msg@, p_map_new());
    }
    None
}

/// A word character of an inline modifier filter.
pub open spec fn is_word_char(c: char) -> bool {
    is_digit_char(c) || ('a' <= c && c <= 'z') || ('A' <= c && c <= 'Z') || c == '_'
}

fn word_char(c: char) -> (r: bool)
    ensures
        r == is_word_char(c),
{
    is_digit(c) || ('a' <= c && c <= 'z') || ('A' <= c && c <= 'Z') || c == '_'
}

/// The modifier bit of one lowercased two-letter acronym; `nm` is the
/// empty set.
pub open spec fn spec_acronym_bit(a: char, b: char) -> Option<u32> {
    if a == 'n' && b == 'm' {
        Some(0u32)
    } else if a == 'n' && b == 'f' {
        Some(0x1u32)
    } else if a == 'e' && b == 'z' {
        Some(0x2u32)
    } else if a == 't' && b == 'd' {
        Some(0x4u32)
    } else if a == 'h' && b == 'd' {
        Some(0x8u32)
    } else if a == 'h' && b == 'r' {
        Some(0x10u32)
    } else if a == 's' && b == 'd' {
        Some(0x20u32)
    } else if a == 'd' && b == 't' {
        Some(0x40u32)
    } else if a == 'r' && b == 'x' {
        Some(0x80u32)
    } else if a == 'h' && b == 't' {
        Some(0x100u32)
    } else if a == 'n' && b == 'c' {
        Some(0x200u32)
    } else if a == 'f' && b == 'l' {
        Some(0x400u32)
    } else if a == 's' && b == 'o' {
        Some(0x1000u32)
    } else if a == 'a' && b == 'p' {
        Some(0x2000u32)
    } else if a == 'p' && b == 'f' {
        Some(0x4000u32)
    } else if a == 'f' && b == 'i' {
        Some(0x100000u32)
    } else if a == 'r' && b == 'd' {
        Some(0x200000u32)
    } else if a == 'm' && b == 'r' {
        Some(0x40000000u32)
    } else {
        None
    }
}

fn acronym_bit(a: char, b: char) -> (r: Option<u32>)
    ensures
        r == spec_acronym_bit(a, b),
{
    match (a, b) {
        ('n', 'm') => Some(0),
        ('n', 'f') => Some(0x1),
        ('e', 'z') => Some(0x2),
        ('t', 'd') => Some(0x4),
        ('h', 'd') => Some(0x8),
        ('h', 'r') => Some(0x10),
        ('s', 'd') => Some(0x20),
        ('d', 't') => Some(0x40),
        ('r', 'x') => Some(0x80),
        ('h', 't') => Some(0x100),
        ('n', 'c') => Some(0x200),
        ('f', 'l') => Some(0x400),
        ('s', 'o') => Some(0x1000),
        ('a', 'p') => Some(0x2000),
        ('p', 'f') => Some(0x4000),
        ('f', 'i') => Some(0x100000),
        ('r', 'd') => Some(0x200000),
        ('m', 'r') => Some(0x40000000),
        _ => None,
    }
}

/// The modifier set spelled by a lowercased run of two-letter acronyms;
/// nothing on an odd length or an unknown acronym.
pub open spec fn spec_mods_from_acronyms(t: Seq<char>, i: int) -> Option<u32>
    decreases t.len() - i,
{
    if i < 0 || i > t.len() {
        None
    } else if i == t.len() {
        Some(0u32)
    } else if i + 1 == t.len() {
        None
    } else {
        match spec_acronym_bit(t[i], t[i + 1]) {
            Some(b) => match spec_mods_from_acronyms(t, i + 2) {
                Some(rest) => Some(b | rest),
                None => None,
            },
            None => None,
        }
    }
}

fn mods_from_acronyms(t: &str, tlen: usize) -> (r: Option<Mods>)
    requires
        tlen == t@.len(),
    ensures
        match r {
            Some(m) => spec_mods_from_acronyms(t@, 0) == Some(m.bits),
            None => spec_mods_from_acronyms(t@, 0) is None,
        },
{
    let mut bits: u32 = 0;
    let mut i: usize = 0;
    proof {
        if spec_mods_from_acronyms(t@, 0) is Some {
            let all: u32 = spec_mods_from_acronyms(t@, 0)->Some_0;
            assert(all == 0u32 | all) by (bit_vector);
        }
    }
    while i < tlen
        invariant
            i <= tlen,
            tlen == t@.len(),
            spec_mods_from_acronyms(t@, 0) is Some <==> spec_mods_from_acronyms(
                t@,
                i as int,
            ) is Some,
            spec_mods_from_acronyms(t@, 0) is Some ==> spec_mods_from_acronyms(t@, 0)->Some_0
                == bits | spec_mods_from_acronyms(t@, i as int)->Some_0,
        decreases tlen - i,
    {
        if i + 1 >= tlen {
            proof {
                assert(spec_mods_from_acronyms(t@, i as int) is None);
            }
            return None;
        }
        let a = t.get_char(i);
        let b = t.get_char(i + 1);
        match acronym_bit(a, b) {
            Some(bit) => {
                proof {
                    if spec_mods_from_acronyms(t@, i + 2) is Some {
                        let rest: u32 = spec_mods_from_acronyms(t@, i + 2)->Some_0;
                        assert((bits | bit) | rest == bits | (bit | rest)) by (bit_vector);
                        assert(spec_mods_from_acronyms(t@, i as int)->Some_0 == bit | rest);
                    }
                }
                bits = bits | bit;
            },
            None => {
                proof {
                    assert(spec_mods_from_acronyms(t@, i as int) is None);
                }
                return None;
            },
        }
        i += 2;
    }
    proof {
        assert(spec_mods_from_acronyms(t@, i as int) == Some(0u32));
        assert(bits | 0u32 == bits) by (bit_vector);
    }
    Some(Mods { bits })
}

/// Parse a bare run of modifier acronyms, e.g. `hdhr`.
pub fn parse_mods_bare(s: &str) -> (r: Option<Mods>)
    ensures
        match r {
            Some(m) => spec_mods_from_acronyms(lower_seq(s@), 0) == Some(m.bits),
            None => spec_mods_from_acronyms(lower_seq(s@), 0) is None,
        },
{
    let lowered = lowercased(s);
    let llen = lowered.as_str().unicode_len();
    mods_from_acronyms(lowered.as_str(), llen)
}

/// What an inline modifier filter means: `+mods` includes, `+mods!` is
/// exact, `-mods!` excludes; anything else is no filter.
pub open spec fn spec_get_mods(s: Seq<char>) -> Option<ModSelection> {
    if s.len() >= 2 && s[0] == '+' {
        let end = if s.last() == '!' {
            s.len() - 1
        } else {
            s.len() as int
        };
        if end > 1 && (forall|k: int| 1 <= k < end ==> is_word_char(#[trigger] s[k])) {
            match spec_mods_from_acronyms(lower_seq(s.subrange(1, end)), 0) {
                Some(bits) => if s.last() == '!' {
                    Some(ModSelection::Exact(Mods { bits }))
                } else {
                    Some(ModSelection::Include(Mods { bits }))
                },
                None => None,
            }
        } else {
            None
        }
    } else if s.len() >= 3 && s[0] == '-' && s.last() == '!' {
        let end = s.len() - 1;
        if (forall|k: int| 1 <= k < end ==> is_word_char(#[trigger] s[k])) {
            match spec_mods_from_acronyms(lower_seq(s.subrange(1, end)), 0) {
                Some(bits) => Some(ModSelection::Exclude(Mods { bits })),
                None => None,
            }
        } else {
            None
        }
    } else {
        None
    }
}

/// Parse an inline modifier filter.
pub fn get_mods(msg: &str) -> (r: Option<ModSelection>)
    ensures
        r == spec_get_mods(msg@),
{
    let slen = msg.unicode_len();
    if slen < 2 {
        return None;
    }
    let head = msg.get_char(0);
    let last = msg.get_char(slen - 1);
    if head == '+' {
        let end = if last == '!' {
            slen - 1
        } else {
            slen
        };
        if end <= 1 {
            return None;
        }
        let mut k: usize = 1;
        while k < end
            invariant
                1 <= k <= end,
                end <= slen,
                2 <= slen == msg@.len(),
                msg@[0] == '+',
                end as int == if msg@.last() == '!' {
                    slen - 1
                } else {
                    slen as int
                },
                end > 1,
                forall|j: int| 1 <= j < k ==> is_word_char(#[trigger] msg@[j]),
            decreases end - k,
        {
            if !word_char(msg.get_char(k)) {
                proof {
                    assert(!is_word_char(msg@[k as int]));
                }
                return None;
            }
            k += 1;
        }
        let chunk = msg.substring_char(1, end);
        let lowered = lowercased(chunk);
        let llen = lowered.as_str().unicode_len();
        proof {
            assert(lowered@ == lower_seq(msg@.subrange(1, end as int)));
        }
        match mods_from_acronyms(lowered.as_str(), llen) {
            Some(m) => {
                if last == '!' {
                    Some(ModSelection::Exact(m))
                } else {
                    Some(ModSelection::Include(m))
                }
            },
            None => None,
        }
    } else if head == '-' && last == '!' && slen >= 3 {
        let end = slen - 1;
        let mut k: usize = 1;
        while k < end
            invariant
                1 <= k <= end,
                end == slen - 1,
                3 <= slen == msg@.len(),
                msg@[0] == '-',
                msg@.last() == '!',
                forall|j: int| 1 <= j < k ==> is_word_char(#[trigger] msg@[j]),
            decreases end - k,
        {
            if !word_char(msg.get_char(k)) {
                proof {
                    assert(!is_word_char(msg@[k as int]));
                }
                return None;
            }
            k += 1;
        }
        let chunk = msg.substring_char(1, end);
        let lowered = lowercased(chunk);
        let llen = lowered.as_str().unicode_len();
        proof {
            assert(lowered@ == lower_seq(msg@.subrange(1, end as int)));
        }
        match mods_from_acronyms(lowered.as_str(), llen) {
            Some(m) => Some(ModSelection::Exclude(m)),
            None => None,
        }
    } else {
        None
    }
}

} // verus!
