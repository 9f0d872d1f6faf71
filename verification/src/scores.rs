//! Leaderboard score entries and the multi-fetch merge.
//!
//! A logical leaderboard query may fan out into several physical fetches;
//! their results are combined by `merge_batch`: sort descending by raw
//! score, keep one entry per player — the highest-scored one, first
//! occurrence winning ties — and truncate to the top fifty.

use vstd::prelude::*;

use vstd::multiset::Multiset;

use crate::osu::{GameMode, Grade, Mods};

verus! {

/// Upper bound on the length of a merged leaderboard.
pub const LEADERBOARD_LIMIT: usize = 50;

/// One score of a map leaderboard, as plain values. Fractional quantities
/// carry fixed-point integers: accuracy in hundredths of a percent, pp in
/// hundredths of a point.
pub struct ScoreEntry {
    pub score_id: u64,
    pub user_id: u32,
    pub username: String,
    pub country_code: String,
    pub mode: GameMode,
    pub mods: Mods,
    pub score: u32,
    pub acc_hundredths: u32,
    pub max_combo: u32,
    pub grade: Grade,
    pub pp_centis: Option<u32>,
    pub ended_at_secs: i64,
    pub count_50: u32,
    pub count_100: u32,
    pub count_300: u32,
    pub count_geki: u32,
    pub count_katu: u32,
    pub count_miss: u32,
}

impl Clone for ScoreEntry {
    fn clone(&self) -> (r: Self)
        ensures
            r == *self,
    {
        ScoreEntry {
            score_id: self.score_id,
            user_id: self.user_id,
            username: self.username.clone(),
            country_code: self.country_code.clone(),
            mode: self.mode,
            mods: self.mods,
            score: self.score,
            acc_hundredths: self.acc_hundredths,
            max_combo: self.max_combo,
            grade: self.grade,
            pp_centis: self.pp_centis,
            ended_at_secs: self.ended_at_secs,
            count_50: self.count_50,
            count_100: self.count_100,
            count_300: self.count_300,
            count_geki: self.count_geki,
            count_katu: self.count_katu,
            count_miss: self.count_miss,
        }
    }
}

/// No two entries belong to the same player.
pub open spec fn unique_users(s: Seq<ScoreEntry>) -> bool {
    forall|i: int, j: int|
        0 <= i < j < s.len() ==> s[i].user_id != s[j].user_id
}

/// Raw scores never increase along the sequence.
pub open spec fn sorted_desc(s: Seq<ScoreEntry>) -> bool {
    forall|i: int, j: int|
        0 <= i < j < s.len() ==> s[i].score >= s[j].score
}

/// `e` occurs among the first `p` entries of `s`, and every earlier entry
/// of the same player scores strictly less.
#[verifier::opaque]
pub open spec fn first_of_best_upto(s: Seq<ScoreEntry>, p: int, e: ScoreEntry) -> bool {
    exists|i: int|
        0 <= i < p && i < s.len() && #[trigger] s[i] == e && (forall|i2: int|
            0 <= i2 < i && (#[trigger] s[i2]).user_id == e.user_id ==> s[i2].score < e.score)
}

/// `e` is the first entry of `s` at which its player reaches the score `e`
/// carries. Together with the per-player-maximum clause this pins the
/// tie-break: the first occurrence of a player's best survives a merge.
pub open spec fn first_of_best(s: Seq<ScoreEntry>, e: ScoreEntry) -> bool {
    first_of_best_upto(s, s.len() as int, e)
}

/// The index of the first entry of `v` belonging to `user`, if any.
fn index_of_user(v: &Vec<ScoreEntry>, user: u32) -> (r: Option<usize>)
    ensures
        match r {
            Some(j) => j < v@.len() && v@[j as int].user_id == user,
            None => forall|i: int| 0 <= i < v@.len() ==> v@[i].user_id != user,
        },
{
    let mut i: usize = 0;
    while i < v.len()
        invariant
            i <= v@.len(),
            forall|k: int| 0 <= k < i ==> v@[k].user_id != user,
        decreases v@.len() - i,
    {
        if v[i].user_id == user {
            return Some(i);
        }
        i += 1;
    }
    None
}

/// One entry per player, each carrying the highest score that player has
/// anywhere in the input; for equal scores the earliest entry wins.
fn dedup_best(input: &Vec<ScoreEntry>) -> (r: Vec<ScoreEntry>)
    ensures
        unique_users(r@),
        forall|j: int| 0 <= j < r@.len() ==> input@.contains(#[trigger] r@[j]),
        forall|j: int| 0 <= j < r@.len() ==> first_of_best(input@, #[trigger] r@[j]),
        forall|e: ScoreEntry| #[trigger]
            input@.contains(e) ==> exists|j: int|
                0 <= j < r@.len() && #[trigger] r@[j].user_id == e.user_id && r@[j].score
                    >= e.score,
        r@.len() <= input@.len(),
{
    let mut out: Vec<ScoreEntry> = Vec::new();
    // The input position each kept entry was taken from.
    let ghost mut wit: Seq<int> = Seq::empty();
    let mut i: usize = 0;
    while i < input.len()
        invariant
            i <= input@.len(),
            out@.len() <= i,
            unique_users(out@),
            wit.len() == out@.len(),
            forall|j: int|
                0 <= j < out@.len() ==> 0 <= #[trigger] wit[j] < i && input@[wit[j]] == out@[j],
            forall|j: int, i2: int|
                #![trigger wit[j], input@[i2]]
                0 <= j < out@.len() && 0 <= i2 < wit[j] && input@[i2].user_id == out@[j].user_id
                    ==> input@[i2].score < out@[j].score,
            forall|k: int|
                #![trigger input@[k]]
                0 <= k < i ==> exists|j: int|
                    0 <= j < out@.len() && #[trigger] out@[j].user_id == input@[k].user_id
                        && out@[j].score >= input@[k].score,
        decreases input@.len() - i,
    {
        let e = input[i].clone();
        let ghost pre_out = out@;
        let ghost pre_wit = wit;
        proof {
            assert(input@.contains(input@[i as int]));
        }
        match index_of_user(&out, e.user_id) {
            Some(j) => {
                if e.score > out[j].score {
                    out[j] = e;
                    proof {
                        wit = wit.update(j as int, i as int);
                        assert(out@[j as int] == input@[i as int]);
                        // Every earlier entry of this player scores below
                        // the replaced best, hence below the new one.
                        assert forall|i2: int|
                            0 <= i2 < i && (#[trigger] input@[i2]).user_id == input@[i as int].user_id implies input@[i2].score < input@[i as int].score by {
                            let jj = choose|jj: int|
                                0 <= jj < pre_out.len() && #[trigger] pre_out[jj].user_id == input@[i2].user_id && pre_out[jj].score >= input@[i2].score;
                            assert(pre_out[j as int].user_id == input@[i as int].user_id);
                            assert(jj == j as int);
                        }
                    }
                }
                proof {
                    assert(exists|j2: int|
                        0 <= j2 < out@.len() && #[trigger] out@[j2].user_id == input@[i as int].user_id && out@[j2].score >= input@[i as int].score);
                }
            },
            None => {
                out.push(e);
                proof {
                    wit = wit.push(i as int);
                    assert(out@[out@.len() - 1] == input@[i as int]);
                    // This player has no earlier entry at all.
                    assert forall|i2: int|
                        0 <= i2 < i && (#[trigger] input@[i2]).user_id == input@[i as int].user_id implies input@[i2].score < input@[i as int].score by {
                        let jj = choose|jj: int|
                            0 <= jj < pre_out.len() && #[trigger] pre_out[jj].user_id == input@[i2].user_id && pre_out[jj].score >= input@[i2].score;
                        assert(pre_out[jj].user_id == e.user_id);
                        assert(false);
                    }
                    assert(exists|j2: int|
                        0 <= j2 < out@.len() && #[trigger] out@[j2].user_id == input@[i as int].user_id && out@[j2].score >= input@[i as int].score);
                }
            },
        }
        proof {
            assert forall|k: int| #![trigger input@[k]] 0 <= k < i implies exists|j2: int|
                0 <= j2 < out@.len() && #[trigger] out@[j2].user_id == input@[k].user_id
                    && out@[j2].score >= input@[k].score by {
                let j0 = choose|j0: int|
                    0 <= j0 < pre_out.len() && #[trigger] pre_out[j0].user_id == input@[k].user_id
                        && pre_out[j0].score >= input@[k].score;
                assert(0 <= j0 < out@.len());
                assert(out@[j0].user_id == input@[k].user_id && out@[j0].score >= input@[k].score);
            }
        }
        i += 1;
    }
    proof {
        assert forall|j: int| 0 <= j < out@.len() implies input@.contains(#[trigger] out@[j]) by {
            assert(input@[wit[j]] == out@[j]);
        }
        assert forall|j: int| 0 <= j < out@.len() implies first_of_best(
            input@,
            #[trigger] out@[j],
        ) by {
            reveal(first_of_best_upto);
            assert(0 <= wit[j] < input@.len() && input@[wit[j]] == out@[j]);
            assert forall|i2: int|
                0 <= i2 < wit[j] && (#[trigger] input@[i2]).user_id
                    == out@[j].user_id implies input@[i2].score < out@[j].score by {
                assert(input@[i2] == input@[i2]);
            }
        }
        assert forall|e: ScoreEntry| #[trigger]
            input@.contains(e) implies exists|j: int|
            0 <= j < out@.len() && #[trigger] out@[j].user_id == e.user_id && out@[j].score
                >= e.score by {
            let k = choose|k: int| 0 <= k < input@.len() && input@[k] == e;
        }
    }
    out
}

/// The index of a maximal raw score in `v`.
fn max_score_index(v: &Vec<ScoreEntry>) -> (r: usize)
    requires
        v@.len() >= 1,
    ensures
        r < v@.len(),
        forall|j: int| 0 <= j < v@.len() ==> v@[j].score <= v@[r as int].score,
{
    let mut best: usize = 0;
    let mut i: usize = 1;
    while i < v.len()
        invariant
            best < i <= v@.len(),
            v@.len() >= 1,
            forall|j: int| 0 <= j < i ==> v@[j].score <= v@[best as int].score,
        decreases v@.len() - i,
    {
        if v[i].score > v[best].score {
            best = i;
        }
        i += 1;
    }
    best
}

/// Sort descending by raw score. The result is a permutation of the input
/// that keeps exactly the same entries and the same set of players.
fn sorted_desc_of(input: Vec<ScoreEntry>) -> (r: Vec<ScoreEntry>)
    ensures
        sorted_desc(r@),
        r@.to_multiset() == input@.to_multiset(),
        r@.len() == input@.len(),
        forall|e: ScoreEntry| #[trigger] r@.contains(e) ==> input@.contains(e),
        forall|e: ScoreEntry| #[trigger] input@.contains(e) ==> r@.contains(e),
        unique_users(input@) ==> unique_users(r@),
{
    broadcast use vstd::seq_lib::group_to_multiset_ensures;
    broadcast use vstd::multiset::group_multiset_axioms;

    let ghost orig = input@;
    let mut v = input;
    let mut out: Vec<ScoreEntry> = Vec::new();
    while v.len() > 0
        invariant
            out@.to_multiset().add(v@.to_multiset()) == orig.to_multiset(),
            out@.len() + v@.len() == orig.len(),
            sorted_desc(out@),
            forall|k: int, j: int|
                0 <= k < out@.len() && 0 <= j < v@.len() ==> out@[k].score >= v@[j].score,
            unique_users(orig) ==> unique_users(out@) && unique_users(v@) && (forall|
                k: int,
                j: int,
            |
                0 <= k < out@.len() && 0 <= j < v@.len() ==> out@[k].user_id != v@[j].user_id),
            forall|e: ScoreEntry|
                #![auto]
                out@.contains(e) || v@.contains(e) ==> orig.contains(e),
        decreases v@.len(),
    {
        let ghost pre_v = v@;
        let ghost pre_out = out@;
        let i = max_score_index(&v);
        let e = v.remove(i);
        out.push(e);
        proof {
            assert(pre_v.contains(pre_v[i as int]));
            assert(out@ == pre_out.push(e));
            assert(v@ == pre_v.remove(i as int));
            assert(out@.to_multiset() == pre_out.push(e).to_multiset());
            assert(v@.to_multiset() == pre_v.remove(i as int).to_multiset());
            broadcast use vstd::multiset::group_multiset_axioms;

            vstd::seq_lib::to_multiset_build(pre_out, e);
            vstd::seq_lib::to_multiset_remove(pre_v, i as int);
            vstd::seq_lib::to_multiset_contains(pre_v, e);
            assert(out@.to_multiset() =~= pre_out.to_multiset().insert(e));
            assert(v@.to_multiset() =~= pre_v.to_multiset().remove(e));
            assert(out@.to_multiset().add(v@.to_multiset()) =~= orig.to_multiset());
            assert forall|j: int| 0 <= j < v@.len() implies e.score >= v@[j].score by {
                if j < i {
                    assert(v@[j] == pre_v[j]);
                } else {
                    assert(v@[j] == pre_v[j + 1]);
                }
            }
            if unique_users(orig) {
                assert forall|k: int, j: int|
                    0 <= k < out@.len() && 0 <= j < v@.len() implies out@[k].user_id
                    != v@[j].user_id by {
                    let pj = if j < i {
                        j
                    } else {
                        j + 1
                    };
                    assert(v@[j] == pre_v[pj]);
                }
            }
            assert forall|e2: ScoreEntry|
                #![auto]
                out@.contains(e2) || v@.contains(e2) implies orig.contains(e2) by {
                if v@.contains(e2) {
                    let j = choose|j: int| 0 <= j < v@.len() && v@[j] == e2;
                    let pj = if j < i {
                        j
                    } else {
                        j + 1
                    };
                    assert(pre_v.contains(pre_v[pj]));
                }
            }
        }
    }
    proof {
        assert(v@.to_multiset() =~= Multiset::empty());
        assert(out@.to_multiset() =~= orig.to_multiset());
        assert forall|e: ScoreEntry| orig.contains(e) implies out@.contains(e) by {
            assert(orig.to_multiset().count(e) > 0);
        }
    }
    out
}

/// The kept entries come from the combined input and are each the first
/// occurrence of their player's best.
proof fn lemma_res_entries(
    combined: Seq<ScoreEntry>,
    dd: Seq<ScoreEntry>,
    full: Seq<ScoreEntry>,
    res: Seq<ScoreEntry>,
)
    requires
        forall|j: int| 0 <= j < dd.len() ==> combined.contains(#[trigger] dd[j]),
        forall|j: int| 0 <= j < dd.len() ==> first_of_best(combined, #[trigger] dd[j]),
        forall|e: ScoreEntry| full.contains(e) ==> dd.contains(e),
        forall|j: int| 0 <= j < res.len() ==> #[trigger] res[j] == full[j],
        res.len() <= full.len(),
    ensures
        forall|j: int| 0 <= j < res.len() ==> combined.contains(#[trigger] res[j]),
        forall|j: int| 0 <= j < res.len() ==> first_of_best(combined, #[trigger] res[j]),
{
    assert forall|j: int| 0 <= j < res.len() implies combined.contains(#[trigger] res[j])
        && first_of_best(combined, res[j]) by {
        assert(res[j] == full[j]);
        assert(full.contains(full[j]));
        assert(dd.contains(full[j]));
        let jd = choose|jd: int| 0 <= jd < dd.len() && #[trigger] dd[jd] == full[j];
        assert(combined.contains(dd[jd]));
        assert(first_of_best(combined, dd[jd]));
    }
}

/// Each kept entry carries its player's maximum over the combined input.
proof fn lemma_res_max(
    combined: Seq<ScoreEntry>,
    dd: Seq<ScoreEntry>,
    full: Seq<ScoreEntry>,
    res: Seq<ScoreEntry>,
)
    requires
        unique_users(dd),
        forall|e: ScoreEntry| #[trigger]
            combined.contains(e) ==> exists|j: int|
                0 <= j < dd.len() && #[trigger] dd[j].user_id == e.user_id && dd[j].score
                    >= e.score,
        forall|e: ScoreEntry| full.contains(e) ==> dd.contains(e),
        forall|j: int| 0 <= j < res.len() ==> #[trigger] res[j] == full[j],
        res.len() <= full.len(),
    ensures
        forall|j: int, e: ScoreEntry|
            0 <= j < res.len() && #[trigger] combined.contains(e) && e.user_id == (
            #[trigger] res[j]).user_id ==> e.score <= res[j].score,
{
    assert forall|j: int, e: ScoreEntry|
        0 <= j < res.len() && #[trigger] combined.contains(e) && e.user_id == (
        #[trigger] res[j]).user_id implies e.score <= res[j].score by {
        assert(res[j] == full[j]);
        assert(full.contains(full[j]));
        assert(dd.contains(full[j]));
        let jd1 = choose|jd1: int| 0 <= jd1 < dd.len() && dd[jd1] == full[j];
        let jd2 = choose|jd2: int|
            0 <= jd2 < dd.len() && #[trigger] dd[jd2].user_id == e.user_id && dd[jd2].score
                >= e.score;
        assert(dd[jd1].user_id == dd[jd2].user_id);
        assert(jd1 == jd2);
    }
}

/// A result under the limit keeps every player; a full one omits only
/// players whose best is no better than its last entry.
proof fn lemma_res_coverage(
    combined: Seq<ScoreEntry>,
    dd: Seq<ScoreEntry>,
    full: Seq<ScoreEntry>,
    res: Seq<ScoreEntry>,
)
    requires
        forall|e: ScoreEntry| #[trigger]
            combined.contains(e) ==> exists|j: int|
                0 <= j < dd.len() && #[trigger] dd[j].user_id == e.user_id && dd[j].score
                    >= e.score,
        forall|e: ScoreEntry| dd.contains(e) ==> full.contains(e),
        sorted_desc(full),
        forall|j: int| 0 <= j < res.len() ==> #[trigger] res[j] == full[j],
        res.len() == full.len() || res.len() == LEADERBOARD_LIMIT,
        res.len() <= full.len(),
    ensures
        res.len() < LEADERBOARD_LIMIT ==> forall|e: ScoreEntry| #[trigger]
            combined.contains(e) ==> exists|j: int|
                0 <= j < res.len() && (#[trigger] res[j]).user_id == e.user_id,
        res.len() == LEADERBOARD_LIMIT ==> forall|e: ScoreEntry| #[trigger]
            combined.contains(e) ==> (exists|j: int|
                0 <= j < res.len() && (#[trigger] res[j]).user_id == e.user_id) || e.score <= res[
                LEADERBOARD_LIMIT - 1
            ].score,
{
    assert forall|e: ScoreEntry| #[trigger]
        combined.contains(e) implies (exists|j: int|
        0 <= j < res.len() && (#[trigger] res[j]).user_id == e.user_id) || (res.len()
        == LEADERBOARD_LIMIT && e.score <= res[LEADERBOARD_LIMIT - 1].score) by {
        let jd = choose|jd: int|
            0 <= jd < dd.len() && #[trigger] dd[jd].user_id == e.user_id && dd[jd].score
                >= e.score;
        assert(dd.contains(dd[jd]));
        assert(full.contains(dd[jd]));
        let jf = choose|jf: int| 0 <= jf < full.len() && full[jf] == dd[jd];
        if jf < res.len() {
            assert(res[jf].user_id == e.user_id);
        } else {
            assert(res.len() == LEADERBOARD_LIMIT);
            assert(full[res.len() - 1].score >= full[jf].score);
            assert(res[LEADERBOARD_LIMIT - 1] == full[LEADERBOARD_LIMIT - 1]);
        }
    }
}

/// Fold one fetched result set into the accumulated leaderboard.
///
/// The combined entries are reduced to one entry per player — the
/// highest-scored, the first occurrence winning ties — sorted descending
/// by raw score and truncated to the top `LEADERBOARD_LIMIT`. Whenever the
/// result is shorter than the limit, every player of the combined input is
/// represented in it; when it is full, every omitted player's best score
/// is no better than the last kept entry's.
#[verifier::rlimit(100)]
#[verifier::spinoff_prover]
pub fn merge_batch(scores: Vec<ScoreEntry>, new: Vec<ScoreEntry>) -> (r: Vec<ScoreEntry>)
    ensures
        sorted_desc(r@),
        unique_users(r@),
        r@.len() <= LEADERBOARD_LIMIT,
        forall|j: int| 0 <= j < r@.len() ==> (scores@ + new@).contains(#[trigger] r@[j]),
        forall|j: int, e: ScoreEntry|
            0 <= j < r@.len() && #[trigger] (scores@ + new@).contains(e) && e.user_id == (
            #[trigger] r@[j]).user_id ==> e.score <= r@[j].score,
        r@.len() < LEADERBOARD_LIMIT ==> forall|e: ScoreEntry| #[trigger]
            (scores@ + new@).contains(e) ==> exists|j: int|
                0 <= j < r@.len() && (#[trigger] r@[j]).user_id == e.user_id,
        forall|j: int| 0 <= j < r@.len() ==> first_of_best(scores@ + new@, #[trigger] r@[j]),
        r@.len() == LEADERBOARD_LIMIT ==> forall|e: ScoreEntry| #[trigger]
            (scores@ + new@).contains(e) ==> (exists|j: int|
                0 <= j < r@.len() && (#[trigger] r@[j]).user_id == e.user_id) || e.score <= r@[
                LEADERBOARD_LIMIT - 1
            ].score,
{
    let mut all = scores;
    let mut new = new;
    all.append(&mut new);
    let ghost combined = all@;
    let deduped = dedup_best(&all);
    let ghost dd = deduped@;
    let mut sorted = sorted_desc_of(deduped);
    let ghost full = sorted@;
    sorted.truncate(LEADERBOARD_LIMIT);
    proof {
        assert forall|j: int| 0 <= j < sorted@.len() implies #[trigger] sorted@[j] == full[j] by {
            if full.len() > LEADERBOARD_LIMIT {
                assert(sorted@[j] == full.subrange(0, LEADERBOARD_LIMIT as int)[j]);
            }
        }
        lemma_res_entries(combined, dd, full, sorted@);
        lemma_res_max(combined, dd, full, sorted@);
        lemma_res_coverage(combined, dd, full, sorted@);
    }
    sorted
}

/// Where no two entries share a raw score, a sorted merged leaderboard is
/// strictly descending; between equal scores of different players only the
/// order of first occurrence decides, so the strict claim excludes them.
pub proof fn lemma_sorted_unique_strict(s: Seq<ScoreEntry>)
    requires
        sorted_desc(s),
        forall|i: int, j: int| 0 <= i < j < s.len() ==> s[i].score != s[j].score,
    ensures
        forall|i: int, j: int| 0 <= i < j < s.len() ==> s[i].score > s[j].score,
{
}

/// Hidden or flashlight raise a perfect or S grade to its silver form.
pub open spec fn spec_hidden(mods: Mods) -> bool {
    mods.spec_contains(crate::osu::MOD_HIDDEN) || mods.spec_contains(crate::osu::MOD_FLASHLIGHT)
}

impl ScoreEntry {
    /// The number of judged objects in the given mode.
    pub open spec fn spec_hits(self, mode: GameMode) -> int {
        self.count_300 + self.count_100 + self.count_miss + (match mode {
            GameMode::Taiko => 0int,
            GameMode::Osu => self.count_50 as int,
            GameMode::Catch => self.count_50 + self.count_katu,
            GameMode::Mania => self.count_50 + self.count_katu + self.count_geki,
        })
    }

    pub fn hits(&self, mode: GameMode) -> (r: u64)
        ensures
            r == self.spec_hits(mode),
    {
        let mut amount: u64 = self.count_300 as u64 + self.count_100 as u64
            + self.count_miss as u64;
        match mode {
            GameMode::Taiko => {},
            GameMode::Osu => {
                amount += self.count_50 as u64;
            },
            GameMode::Catch => {
                amount += self.count_50 as u64 + self.count_katu as u64;
            },
            GameMode::Mania => {
                amount += self.count_50 as u64 + self.count_katu as u64 + self.count_geki as u64;
            },
        }
        amount
    }

    /// The grade of a standard-mode score, judged on exact hit ratios:
    /// a ratio of threes above nine tenths is an S when the fifties stay
    /// under one hundredth and nothing was missed, and so on down.
    pub open spec fn spec_osu_grade(self) -> Grade {
        let passed = self.spec_hits(GameMode::Osu);
        if self.count_300 == passed {
            if spec_hidden(self.mods) {
                Grade::XH
            } else {
                Grade::X
            }
        } else if 10 * self.count_300 > 9 * passed && 100 * self.count_50 < passed
            && self.count_miss == 0 {
            if spec_hidden(self.mods) {
                Grade::SH
            } else {
                Grade::S
            }
        } else if 10 * self.count_300 > 9 * passed || (5 * self.count_300 > 4 * passed
            && self.count_miss == 0) {
            Grade::A
        } else if 5 * self.count_300 > 4 * passed || (10 * self.count_300 > 7 * passed
            && self.count_miss == 0) {
            Grade::B
        } else if 5 * self.count_300 > 3 * passed {
            Grade::C
        } else {
            Grade::D
        }
    }

    pub fn osu_grade(&self) -> (r: Grade)
        ensures
            r == self.spec_osu_grade(),
    {
        let passed = self.hits(GameMode::Osu);
        let hidden = self.mods.contains(crate::osu::MOD_HIDDEN) || self.mods.contains(
            crate::osu::MOD_FLASHLIGHT,
        );
        if self.count_300 as u64 == passed {
            return if hidden {
                Grade::XH
            } else {
                Grade::X
            };
        }
        let c300 = self.count_300 as u64;
        let c50 = self.count_50 as u64;
        if 10 * c300 > 9 * passed && 100 * c50 < passed && self.count_miss == 0 {
            if hidden {
                Grade::SH
            } else {
                Grade::S
            }
        } else if 10 * c300 > 9 * passed || (5 * c300 > 4 * passed && self.count_miss == 0) {
            Grade::A
        } else if 5 * c300 > 4 * passed || (10 * c300 > 7 * passed && self.count_miss == 0) {
            Grade::B
        } else if 5 * c300 > 3 * passed {
            Grade::C
        } else {
            Grade::D
        }
    }

    /// The grade of a taiko score.
    pub open spec fn spec_taiko_grade(self) -> Grade {
        let passed = self.spec_hits(GameMode::Taiko);
        if self.count_300 == passed {
            if spec_hidden(self.mods) {
                Grade::XH
            } else {
                Grade::X
            }
        } else if 10 * self.count_300 > 9 * passed && self.count_miss == 0 {
            if spec_hidden(self.mods) {
                Grade::SH
            } else {
                Grade::S
            }
        } else if 10 * self.count_300 > 9 * passed || (5 * self.count_300 > 4 * passed
            && self.count_miss == 0) {
            Grade::A
        } else if 5 * self.count_300 > 4 * passed || (10 * self.count_300 > 7 * passed
            && self.count_miss == 0) {
            Grade::B
        } else if 5 * self.count_300 > 3 * passed {
            Grade::C
        } else {
            Grade::D
        }
    }

    pub fn taiko_grade(&self) -> (r: Grade)
        ensures
            r == self.spec_taiko_grade(),
    {
        let passed = self.hits(GameMode::Taiko);
        let hidden = self.mods.contains(crate::osu::MOD_HIDDEN) || self.mods.contains(
            crate::osu::MOD_FLASHLIGHT,
        );
        let c300 = self.count_300 as u64;
        if c300 == passed {
            return if hidden {
                Grade::XH
            } else {
                Grade::X
            };
        }
        if 10 * c300 > 9 * passed && self.count_miss == 0 {
            if hidden {
                Grade::SH
            } else {
                Grade::S
            }
        } else if 10 * c300 > 9 * passed || (5 * c300 > 4 * passed && self.count_miss == 0) {
            Grade::A
        } else if 5 * c300 > 4 * passed || (10 * c300 > 7 * passed && self.count_miss == 0) {
            Grade::B
        } else if 5 * c300 > 3 * passed {
            Grade::C
        } else {
            Grade::D
        }
    }

    /// The grade of a mania score, judged on the accuracy in hundredths of
    /// a percent.
    pub open spec fn spec_mania_grade(self, acc_hundredths: int) -> Grade {
        let passed = self.spec_hits(GameMode::Mania);
        if self.count_geki == passed {
            if spec_hidden(self.mods) {
                Grade::XH
            } else {
                Grade::X
            }
        } else if acc_hundredths > 9500 {
            if spec_hidden(self.mods) {
                Grade::SH
            } else {
                Grade::S
            }
        } else if acc_hundredths > 9000 {
            Grade::A
        } else if acc_hundredths > 8000 {
            Grade::B
        } else if acc_hundredths > 7000 {
            Grade::C
        } else {
            Grade::D
        }
    }

    pub fn mania_grade(&self, acc_hundredths: u32) -> (r: Grade)
        ensures
            r == self.spec_mania_grade(acc_hundredths as int),
    {
        let passed = self.hits(GameMode::Mania);
        let hidden = self.mods.contains(crate::osu::MOD_HIDDEN) || self.mods.contains(
            crate::osu::MOD_FLASHLIGHT,
        );
        if self.count_geki as u64 == passed {
            return if hidden {
                Grade::XH
            } else {
                Grade::X
            };
        }
        if acc_hundredths > 9500 {
            if hidden {
                Grade::SH
            } else {
                Grade::S
            }
        } else if acc_hundredths > 9000 {
            Grade::A
        } else if acc_hundredths > 8000 {
            Grade::B
        } else if acc_hundredths > 7000 {
            Grade::C
        } else {
            Grade::D
        }
    }

    /// The grade of a catch score, judged on the accuracy in hundredths of
    /// a percent: a full hundred is perfect.
    pub open spec fn spec_ctb_grade(self, acc_hundredths: int) -> Grade {
        if acc_hundredths == 10000 {
            if spec_hidden(self.mods) {
                Grade::XH
            } else {
                Grade::X
            }
        } else if acc_hundredths > 9800 {
            if spec_hidden(self.mods) {
                Grade::SH
            } else {
                Grade::S
            }
        } else if acc_hundredths > 9400 {
            Grade::A
        } else if acc_hundredths > 9000 {
            Grade::B
        } else if acc_hundredths > 8500 {
            Grade::C
        } else {
            Grade::D
        }
    }

    pub fn ctb_grade(&self, acc_hundredths: u32) -> (r: Grade)
        ensures
            r == self.spec_ctb_grade(acc_hundredths as int),
    {
        let hidden = self.mods.contains(crate::osu::MOD_HIDDEN) || self.mods.contains(
            crate::osu::MOD_FLASHLIGHT,
        );
        if acc_hundredths == 10000 {
            if hidden {
                Grade::XH
            } else {
                Grade::X
            }
        } else if acc_hundredths > 9800 {
            if hidden {
                Grade::SH
            } else {
                Grade::S
            }
        } else if acc_hundredths > 9400 {
            Grade::A
        } else if acc_hundredths > 9000 {
            Grade::B
        } else if acc_hundredths > 8500 {
            Grade::C
        } else {
            Grade::D
        }
    }

    /// The grade computed for the given mode from the score's own counts
    /// and accuracy.
    pub fn computed_grade(&self, mode: GameMode) -> (r: Grade)
        ensures
            mode is Osu ==> r == self.spec_osu_grade(),
            mode is Taiko ==> r == self.spec_taiko_grade(),
            mode is Mania ==> r == self.spec_mania_grade(self.acc_hundredths as int),
            mode is Catch ==> r == self.spec_ctb_grade(self.acc_hundredths as int),
    {
        match mode {
            GameMode::Osu => self.osu_grade(),
            GameMode::Taiko => self.taiko_grade(),
            GameMode::Mania => self.mania_grade(self.acc_hundredths),
            GameMode::Catch => self.ctb_grade(self.acc_hundredths),
        }
    }
}

} // verus!
