//! Edit distance between two words, for command-name suggestions.

use vstd::prelude::*;

verus! {

pub open spec fn min3(a: nat, b: nat, c: nat) -> nat {
    if a <= b && a <= c {
        a
    } else if b <= c {
        b
    } else {
        c
    }
}

/// How many replace, delete or insert operations morph one word into the
/// other.
pub open spec fn lev(a: Seq<char>, b: Seq<char>) -> nat
    decreases a.len() + b.len(),
{
    if a.len() == 0 {
        b.len()
    } else if b.len() == 0 {
        a.len()
    } else if a.last() == b.last() {
        lev(a.drop_last(), b.drop_last())
    } else {
        1 + min3(lev(a.drop_last(), b), lev(a, b.drop_last()), lev(a.drop_last(), b.drop_last()))
    }
}

/// The distance never exceeds the words' combined length.
pub proof fn lemma_lev_le(a: Seq<char>, b: Seq<char>)
    ensures
        lev(a, b) <= a.len() + b.len(),
    decreases a.len() + b.len(),
{
    if a.len() > 0 && b.len() > 0 {
        lemma_lev_le(a.drop_last(), b.drop_last());
        if a.last() != b.last() {
            lemma_lev_le(a.drop_last(), b);
            lemma_lev_le(a, b.drop_last());
        }
    }
}

fn min3_exec(a: usize, b: usize, c: usize) -> (r: usize)
    ensures
        r == min3(a as nat, b as nat, c as nat),
{
    if a <= b && a <= c {
        a
    } else if b <= c {
        b
    } else {
        c
    }
}

/// How many replace, delete or insert operations are necessary to morph
/// one word into the other; the second component is the longer word's
/// length, against which callers judge the distance.
pub fn levenshtein_distance(word_a: &str, word_b: &str) -> (r: (usize, usize))
    requires
        word_a@.len() + word_b@.len() < usize::MAX,
    ensures
        r.0 == lev(word_a@, word_b@),
        r.1 == if word_a@.len() >= word_b@.len() {
            word_a@.len()
        } else {
            word_b@.len()
        },
{
    let m = word_a.unicode_len();
    let n = word_b.unicode_len();
    let longer = if m >= n {
        m
    } else {
        n
    };
    // Row zero: the distance from the empty prefix of the first word.
    let mut prev: Vec<usize> = Vec::new();
    let mut j: usize = 0;
    while j <= n
        invariant
            j <= n + 1,
            n == word_b@.len(),
            m == word_a@.len(),
            m + n < usize::MAX,
            prev@.len() == j,
            forall|k: int| 0 <= k < j ==> prev@[k] == lev(word_a@.take(0), word_b@.take(k)),
        decreases n + 1 - j,
    {
        prev.push(j);
        proof {
            assert(word_a@.take(0).len() == 0);
        }
        j += 1;
    }
    let mut i: usize = 1;
    while i <= m
        invariant
            1 <= i <= m + 1,
            m == word_a@.len(),
            n == word_b@.len(),
            m + n < usize::MAX,
            prev@.len() == n + 1,
            forall|k: int| 0 <= k <= n ==> prev@[k] == lev(word_a@.take(i - 1), word_b@.take(k)),
        decreases m + 1 - i,
    {
        let ca = word_a.get_char(i - 1);
        let mut cur: Vec<usize> = Vec::new();
        cur.push(i);
        proof {
            assert(word_a@.take(i as int).len() == i);
            assert(word_b@.take(0).len() == 0);
            lemma_lev_le(word_a@.take(i as int), word_b@.take(0));
        }
        let mut j: usize = 1;
        while j <= n
            invariant
                1 <= i <= m,
                1 <= j <= n + 1,
                m == word_a@.len(),
                n == word_b@.len(),
                m + n < usize::MAX,
                ca == word_a@[i - 1],
                prev@.len() == n + 1,
                forall|k: int|
                    0 <= k <= n ==> prev@[k] == lev(word_a@.take(i - 1), word_b@.take(k)),
                cur@.len() == j,
                forall|k: int| 0 <= k < j ==> cur@[k] == lev(word_a@.take(i as int), word_b@.take(k)),
            decreases n + 1 - j,
        {
            let cb = word_b.get_char(j - 1);
            proof {
                let ap = word_a@.take(i as int);
                let bp = word_b@.take(j as int);
                assert(ap.last() == word_a@[i - 1]);
                assert(bp.last() == word_b@[j - 1]);
                assert(ap.drop_last() =~= word_a@.take(i - 1));
                assert(bp.drop_last() =~= word_b@.take(j - 1));
                lemma_lev_le(word_a@.take(i - 1), word_b@.take(j - 1));
                lemma_lev_le(word_a@.take(i - 1), word_b@.take(j as int));
                lemma_lev_le(word_a@.take(i as int), word_b@.take(j - 1));
            }
            let value = if ca == cb {
                prev[j - 1]
            } else {
                let d = min3_exec(prev[j - 1], prev[j], cur[j - 1]);
                d + 1
            };
            cur.push(value);
            j += 1;
        }
        prev = cur;
        i += 1;
    }
    proof {
        assert(word_a@.take(m as int) =~= word_a@);
        assert(word_b@.take(n as int) =~= word_b@);
    }
    let d = prev[n];
    (d, longer)
}

} // verus!
