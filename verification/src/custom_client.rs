//! The rate-limited client's decision logic: token buckets per endpoint
//! class, request URLs, transient-failure classification, and the
//! leaderboard multi-fetch plan with its merge.
//!
//! The runtime around the library owns the HTTP transport; it acquires a
//! grant time here, sleeps until it, issues the request, and feeds status
//! and body back into these functions.

use vstd::prelude::*;

use crate::osu::{
    GameMode, Mods, MOD_DOUBLE_TIME, MOD_MIRROR, MOD_NIGHTCORE,
};
use crate::ratelimit::TokenBucket;
use crate::scores::{merge_batch, sorted_desc, unique_users, ScoreEntry, LEADERBOARD_LIMIT};
use crate::text::{dec_digits, u64_to_dec};

verus! {

/// External endpoint classes, each with its own token bucket.
#[derive(Clone, Copy, PartialEq, Eq, Structural, Debug)]
pub enum Site {
    OsuHiddenApi,
    OsuMapFile,
}

/// Token buckets of the outbound client: the hidden API takes one request
/// per 2500 milliseconds, the map-file endpoint one per 500.
pub struct RateLimitedClient {
    pub hidden_api: TokenBucket,
    pub map_file: TokenBucket,
}

impl RateLimitedClient {
    pub open spec fn wf(self) -> bool {
        &&& self.hidden_api@.wf()
        &&& self.map_file@.wf()
    }

    pub fn new(now: u64) -> (r: Self)
        ensures
            r.wf(),
            r.hidden_api.capacity == 1 && r.hidden_api.refill_interval == 2500,
            r.map_file.capacity == 1 && r.map_file.refill_interval == 500,
            r.hidden_api.last_refill == now && r.map_file.last_refill == now,
    {
        RateLimitedClient {
            hidden_api: TokenBucket::new(1, 2500, now),
            map_file: TokenBucket::new(1, 500, now),
        }
    }

    /// Acquire a token for the site's bucket; the caller must not issue
    /// the request before the returned grant time.
    pub fn acquire(&mut self, site: Site, now: u64) -> (grant: u64)
        requires
            old(self).wf(),
            now >= old(self).hidden_api.last_refill,
            now >= old(self).map_file.last_refill,
            now + 2500 <= u64::MAX,
            old(self).hidden_api.refill_interval == 2500,
            old(self).map_file.refill_interval == 500,
        ensures
            final(self).wf(),
            grant >= now,
            final(self).hidden_api.last_refill <= grant,
            final(self).map_file.last_refill <= grant,
            final(self).hidden_api.refill_interval == 2500,
            final(self).map_file.refill_interval == 500,
    {
        match site {
            Site::OsuHiddenApi => self.hidden_api.acquire_at(now),
            Site::OsuMapFile => self.map_file.acquire_at(now),
        }
    }
}

/// A rate-limit response from the remote service; together with a
/// recognized "not yet ready" body it is the only retryable failure.
pub fn is_transient_status(status: u16) -> (r: bool)
    ensures
        r == (status == 429),
{
    status == 429
}

/// Client and server error statuses fail the call.
pub fn status_is_error(status: u16) -> (r: bool)
    ensures
        r == (400 <= status <= 599),
{
    400 <= status && status <= 599
}

/// An invalid map-file response: the body opens an HTML document instead
/// of a beatmap, and the download is retried once.
pub fn looks_like_html(bytes: &Vec<u8>) -> (r: bool)
    ensures
        r == (bytes@.len() >= 6 && bytes@[0] == 60 && bytes@[1] == 104 && bytes@[2] == 116
            && bytes@[3] == 109 && bytes@[4] == 108 && bytes@[5] == 62),
{
    bytes.len() >= 6 && bytes[0] == 60 && bytes[1] == 104 && bytes[2] == 116 && bytes[3] == 109
        && bytes[4] == 108 && bytes[5] == 62
}

/// The modifier table: each modifier's bit and its query fragment.
pub open spec fn mod_table() -> Seq<(u32, Seq<char>)> {
    seq![
        (0x1u32, "&mods[]=NF"@),
        (0x2u32, "&mods[]=EZ"@),
        (0x4u32, "&mods[]=TD"@),
        (0x8u32, "&mods[]=HD"@),
        (0x10u32, "&mods[]=HR"@),
        (0x20u32, "&mods[]=SD"@),
        (0x40u32, "&mods[]=DT"@),
        (0x80u32, "&mods[]=RX"@),
        (0x100u32, "&mods[]=HT"@),
        (0x200u32, "&mods[]=NC"@),
        (0x400u32, "&mods[]=FL"@),
        (0x1000u32, "&mods[]=SO"@),
        (0x2000u32, "&mods[]=AP"@),
        (0x4000u32, "&mods[]=PF"@),
        (0x100000u32, "&mods[]=FI"@),
        (0x200000u32, "&mods[]=RD"@),
        (0x40000000u32, "&mods[]=MR"@),
    ]
}

/// The query fragments of the modifiers set in `bits`, from table row `i`
/// on.
pub open spec fn mods_query_from(bits: u32, i: int) -> Seq<char>
    decreases mod_table().len() - i,
{
    if i < 0 || i >= mod_table().len() {
        Seq::empty()
    } else {
        (if bits & mod_table()[i].0 != 0 {
            mod_table()[i].1
        } else {
            Seq::empty()
        }) + mods_query_from(bits, i + 1)
    }
}

/// The modifier-filter query fragment: one `&mods[]=` entry per modifier,
/// in the fixed table order.
pub open spec fn spec_mods_query(bits: u32) -> Seq<char> {
    mods_query_from(bits, 0)
}

fn mod_mask(i: usize) -> (r: u32)
    requires
        i < 17,
    ensures
        r == mod_table()[i as int].0,
{
    match i {
        0 => 0x1,
        1 => 0x2,
        2 => 0x4,
        3 => 0x8,
        4 => 0x10,
        5 => 0x20,
        6 => 0x40,
        7 => 0x80,
        8 => 0x100,
        9 => 0x200,
        10 => 0x400,
        11 => 0x1000,
        12 => 0x2000,
        13 => 0x4000,
        14 => 0x100000,
        15 => 0x200000,
        _ => 0x40000000,
    }
}

fn mod_chunk(i: usize) -> (r: &'static str)
    requires
        i < 17,
    ensures
        r@ == mod_table()[i as int].1,
{
    match i {
        0 => "&mods[]=NF",
        1 => "&mods[]=EZ",
        2 => "&mods[]=TD",
        3 => "&mods[]=HD",
        4 => "&mods[]=HR",
        5 => "&mods[]=SD",
        6 => "&mods[]=DT",
        7 => "&mods[]=RX",
        8 => "&mods[]=HT",
        9 => "&mods[]=NC",
        10 => "&mods[]=FL",
        11 => "&mods[]=SO",
        12 => "&mods[]=AP",
        13 => "&mods[]=PF",
        14 => "&mods[]=FI",
        15 => "&mods[]=RD",
        _ => "&mods[]=MR",
    }
}

fn append_mods_query(out: &mut String, bits: u32)
    ensures
        final(out)@ == old(out)@ + spec_mods_query(bits),
{
    let ghost start = out@;
    let mut i: usize = 0;
    while i < 17
        invariant
            i <= 17,
            out@ + mods_query_from(bits, i as int) == start + spec_mods_query(bits),
        decreases 17 - i,
    {
        let ghost pre = out@;
        if bits & mod_mask(i) != 0 {
            out.append(mod_chunk(i));
        }
        proof {
            assert(out@ + mods_query_from(bits, i + 1) =~= pre + mods_query_from(bits, i as int));
        }
        i += 1;
    }
    proof {
        assert(out@ =~= out@ + mods_query_from(bits, 17));
        assert(out@ =~= start + spec_mods_query(bits));
    }
}

/// The URL of one national-leaderboard query.
pub open spec fn spec_leaderboard_url(map_id: int, mods: Option<Mods>) -> Seq<char> {
    "https://osu.ppy.sh/beatmaps/"@ + dec_digits(map_id) + "/scores?type=country"@ + match mods {
        None => Seq::empty(),
        Some(m) => if m.bits == 0 {
            "&mods[]=NM"@
        } else {
            spec_mods_query(m.bits)
        },
    }
}

pub fn leaderboard_url(map_id: u32, mods: Option<Mods>) -> (r: String)
    ensures
        r@ == spec_leaderboard_url(map_id as int, mods),
{
    let mut url = String::from_str("https://osu.ppy.sh/beatmaps/");
    let id = u64_to_dec(map_id as u64);
    url.append(id.as_str());
    url.append("/scores?type=country");
    match mods {
        None => {},
        Some(m) => {
            if m.is_empty() {
                url.append("&mods[]=NM");
            } else {
                append_mods_query(&mut url, m.bits);
            }
        },
    }
    proof {
        assert(url@ =~= spec_leaderboard_url(map_id as int, mods));
    }
    url
}

/// The URL a map file is downloaded from.
pub open spec fn spec_map_file_url(map_id: int) -> Seq<char> {
    "https://osu.ppy.sh/osu/"@ + dec_digits(map_id)
}

pub fn map_file_url(map_id: u32) -> (r: String)
    ensures
        r@ == spec_map_file_url(map_id as int),
{
    let mut url = String::from_str("https://osu.ppy.sh/osu/");
    let id = u64_to_dec(map_id as u64);
    url.append(id.as_str());
    proof {
        assert(url@ =~= spec_map_file_url(map_id as int));
    }
    url
}

/// Whether the filter leaves the mirrored orientation open.
pub open spec fn spec_non_mirror(mods: Option<Mods>) -> bool {
    match mods {
        Some(m) => !m.spec_contains(MOD_MIRROR),
        None => true,
    }
}

/// The mutually substitutable speed modifiers: a filter holding one of
/// them is retried with the alternate.
pub open spec fn spec_swap_mods(mods: Option<Mods>) -> Option<Mods> {
    match mods {
        Some(m) => if m.spec_contains(MOD_DOUBLE_TIME) {
            Some(Mods { bits: m.bits | MOD_NIGHTCORE })
        } else if m.spec_contains(MOD_NIGHTCORE) {
            Some(Mods { bits: (m.bits & !MOD_NIGHTCORE) | MOD_DOUBLE_TIME })
        } else {
            None
        },
        None => None,
    }
}

/// The filter with the mirrored orientation pinned.
pub open spec fn spec_with_mirror(mods: Option<Mods>) -> Mods {
    match mods {
        Some(m) => Mods { bits: m.bits | MOD_MIRROR },
        None => Mods { bits: MOD_MIRROR },
    }
}

/// The physical queries one logical leaderboard query fans out into, in
/// order: the base filter; on a mania map whose filter leaves the mirrored
/// orientation open, the mirrored variant; and when the filter holds one
/// of the two speed modifiers, the same one or two queries again with the
/// alternate modifier.
pub open spec fn spec_leaderboard_requests(mods: Option<Mods>, mode: GameMode) -> Seq<
    Option<Mods>,
> {
    let pair = mode is Mania && spec_non_mirror(mods);
    let base: Seq<Option<Mods>> = seq![mods];
    let with_mirror: Seq<Option<Mods>> = if pair {
        seq![Some(spec_with_mirror(mods))]
    } else {
        Seq::empty()
    };
    let swapped: Seq<Option<Mods>> = match spec_swap_mods(mods) {
        Some(sw) => if pair {
            seq![Some(spec_with_mirror(Some(sw)))] + seq![Some(sw)]
        } else {
            seq![Some(sw)]
        },
        None => Seq::empty(),
    };
    base + with_mirror + swapped
}

/// One logical leaderboard query's fan-out plan.
pub struct LeaderboardPlan {
    pub requests: Vec<Option<Mods>>,
    pub mania_pair: bool,
    pub has_swap: bool,
}

impl LeaderboardPlan {
    pub open spec fn wf(self, mods: Option<Mods>, mode: GameMode) -> bool {
        &&& self.requests@ == spec_leaderboard_requests(mods, mode)
        &&& self.mania_pair == (mode is Mania && spec_non_mirror(mods))
        &&& self.has_swap == (spec_swap_mods(mods) is Some)
    }
}

pub fn plan_leaderboard(mods: Option<Mods>, mode: GameMode) -> (r: LeaderboardPlan)
    ensures
        r.wf(mods, mode),
        r.requests@.len() == 1 + (if r.mania_pair {
            1int
        } else {
            0int
        }) + (if r.has_swap {
            if r.mania_pair {
                2int
            } else {
                1int
            }
        } else {
            0int
        }),
{
    let non_mirror = match mods {
        Some(m) => !m.contains(MOD_MIRROR),
        None => true,
    };
    let mania_pair = match mode {
        GameMode::Mania => non_mirror,
        _ => false,
    };
    let swap: Option<Mods> = match mods {
        Some(m) => {
            if m.contains(MOD_DOUBLE_TIME) {
                Some(m.with(MOD_NIGHTCORE))
            } else if m.contains(MOD_NIGHTCORE) {
                Some(m.without(MOD_NIGHTCORE).with(MOD_DOUBLE_TIME))
            } else {
                None
            }
        },
        None => None,
    };
    let mut requests: Vec<Option<Mods>> = Vec::new();
    requests.push(mods);
    if mania_pair {
        let mirrored = match mods {
            Some(m) => m.with(MOD_MIRROR),
            None => Mods { bits: MOD_MIRROR },
        };
        requests.push(Some(mirrored));
    }
    let has_swap = match swap {
        Some(sw) => {
            if mania_pair {
                requests.push(Some(sw.with(MOD_MIRROR)));
            }
            requests.push(Some(sw));
            true
        },
        None => false,
    };
    proof {
        assert(requests@ =~= spec_leaderboard_requests(mods, mode));
    }
    LeaderboardPlan { requests, mania_pair, has_swap }
}

proof fn lemma_concat_contains(a: Seq<ScoreEntry>, b: Seq<ScoreEntry>, e: ScoreEntry)
    requires
        (a + b).contains(e),
    ensures
        a.contains(e) || b.contains(e),
{
    let i = choose|i: int| 0 <= i < (a + b).len() && (a + b)[i] == e;
    if i < a.len() {
        assert(a[i] == (a + b)[i]);
    } else {
        assert(b[i - a.len()] == (a + b)[i]);
    }
}

/// Fold the fetched result sets into one leaderboard, the way the fan-out
/// demands: a single query's result is returned exactly as fetched — the
/// remote service already orders it, and an unfiltered query must keep all
/// of its entries for paging — while a mania pair is merged as soon as
/// both results are in, and the alternate-speed results are appended and
/// merged in one more step. Whenever more than one query was issued, the
/// result is sorted descending by score, unique by player, at most fifty
/// entries long, and drawn entirely from the fetched sets; each merge step
/// keeps the first occurrence of a player's best and omits only players
/// its last kept entry beats, as `merge_batch` states.
pub fn merge_leaderboard_results(plan: &LeaderboardPlan, results: Vec<Vec<ScoreEntry>>) -> (r: Vec<
    ScoreEntry,
>)
    requires
        results@.len() == plan.requests@.len(),
        plan.requests@.len() == 1 + (if plan.mania_pair {
            1int
        } else {
            0int
        }) + (if plan.has_swap {
            if plan.mania_pair {
                2int
            } else {
                1int
            }
        } else {
            0int
        }),
    ensures
        !plan.mania_pair && !plan.has_swap ==> r@ == results@[0]@,
        plan.mania_pair || plan.has_swap ==> {
            &&& sorted_desc(r@)
            &&& unique_users(r@)
            &&& r@.len() <= LEADERBOARD_LIMIT
            &&& forall|j: int|
                0 <= j < r@.len() ==> exists|b: int|
                    0 <= b < results@.len() && (#[trigger] results@[b])@.contains(
                        #[trigger] r@[j],
                    )
        },
{
    let ghost orig = results@;
    let mut results = results;
    let mut scores = results.remove(0);
    let mut consumed: usize = 1;
    if plan.mania_pair {
        let second = results.remove(0);
        proof {
            assert(results@[0] == orig[2] || orig.len() <= 2);
        }
        let ghost s0 = scores@;
        let ghost s1 = second@;
        scores = merge_batch(scores, second);
        consumed = 2;
        proof {
            assert forall|j: int| 0 <= j < scores@.len() implies exists|b: int|
                0 <= b < orig.len() && (#[trigger] orig[b])@.contains(#[trigger] scores@[j]) by {
                lemma_concat_contains(s0, s1, scores@[j]);
                if s0.contains(scores@[j]) {
                    assert(orig[0]@.contains(scores@[j]));
                } else {
                    assert(orig[1]@.contains(scores@[j]));
                }
            }
        }
    }
    if plan.has_swap {
        let ghost pre = scores@;
        let ghost base_ok = plan.mania_pair;
        let mut extra = results.remove(0);
        let ghost e0 = extra@;
        let ghost e0_idx = consumed as int;
        if plan.mania_pair {
            let mut more = results.remove(0);
            proof {
                assert(more@ == orig[e0_idx + 1]@);
            }
            extra.append(&mut more);
        }
        let ghost ex = extra@;
        let r = merge_batch(scores, extra);
        proof {
            assert forall|j: int| 0 <= j < r@.len() implies exists|b: int|
                0 <= b < orig.len() && (#[trigger] orig[b])@.contains(#[trigger] r@[j]) by {
                lemma_concat_contains(pre, ex, r@[j]);
                if pre.contains(r@[j]) {
                    if base_ok {
                    } else {
                        assert(orig[0]@.contains(r@[j]));
                    }
                } else {
                    assert(ex =~= e0 + ex.skip(e0.len() as int));
                    lemma_concat_contains(e0, ex.skip(e0.len() as int), r@[j]);
                    if e0.contains(r@[j]) {
                        assert(orig[e0_idx]@.contains(r@[j]));
                    } else {
                        assert(orig[e0_idx + 1]@.contains(r@[j]));
                    }
                }
            }
        }
        return r;
    }
    proof {
        if plan.mania_pair {
        } else {
            assert(scores@ == orig[0]@);
        }
    }
    scores
}

} // verus!
