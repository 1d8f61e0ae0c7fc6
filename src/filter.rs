use vstd::prelude::*;

use fuzzy_matcher::skim::SkimMatcherV2;
use fuzzy_matcher::FuzzyMatcher;

verus! {

/// Name for the score that the skim matcher, with its default settings, gives
/// `pattern` against `choice` (`None`: no match).
pub uninterp spec fn skim_score(choice: Seq<char>, pattern: Seq<char>) -> Option<i64>;

/// Relies on `fuzzy_matcher::skim::SkimMatcherV2::default()` and its `fuzzy_match`:
/// the score depends on the two strings alone.
#[verifier::external_body]
pub fn fuzzy_score(choice: &str, pattern: &str) -> (r: Option<i64>)
    ensures
        r == skim_score(choice@, pattern@),
{
    SkimMatcherV2::default().fuzzy_match(choice, pattern)
}

/// Entry `j` matched.
pub open spec fn is_match(scores: Seq<Option<i64>>, j: int) -> bool {
    0 <= j < scores.len() && scores[j] is Some
}

/// Entry `a` comes before entry `b`: a higher score, or the same score and an earlier entry.
pub open spec fn ranks_before(scores: Seq<Option<i64>>, a: int, b: int) -> bool {
    scores[a].unwrap() > scores[b].unwrap() || (scores[a].unwrap() == scores[b].unwrap() && a
        < b)
}

/// `r` lists matched entries from best to worst, at most `cap` of them, and leaves out
/// a match only when it is full and every entry in it comes before that match.
pub open spec fn is_ranking(scores: Seq<Option<i64>>, cap: int, r: Seq<usize>) -> bool {
    &&& r.len() <= cap
    &&& forall|k: int| 0 <= k < r.len() ==> is_match(scores, #[trigger] r[k] as int)
    &&& forall|k: int, l: int|
        0 <= k < l < r.len() ==> ranks_before(scores, #[trigger] r[k] as int, #[trigger] r[l] as int)
    &&& forall|j: int|
        #[trigger] is_match(scores, j) && !r.contains(j as usize) ==> r.len() == cap && forall|
            k: int,
        | 0 <= k < r.len() ==> ranks_before(scores, #[trigger] r[k] as int, j)
}

/// The matched entries, best first, at most `max_results` of them.
pub fn rank_matches(scores: &Vec<Option<i64>>, max_results: usize) -> (r: Vec<usize>)
    ensures
        is_ranking(scores@, max_results as int, r@),
{
    let n = scores.len();
    let mut taken: Vec<bool> = Vec::new();
    while taken.len() < n
        invariant
            taken@.len() <= n,
            forall|j: int| 0 <= j < taken@.len() ==> !taken@[j],
        decreases n - taken@.len(),
    {
        taken.push(false);
    }
    let mut out: Vec<usize> = Vec::new();
    loop
        invariant_except_break
            out@.len() <= max_results,
        invariant
            n == scores@.len(),
            taken@.len() == n,
            forall|j: int| 0 <= j < n ==> (#[trigger] taken@[j] <==> out@.contains(j as usize)),
            forall|k: int| 0 <= k < out@.len() ==> is_match(scores@, #[trigger] out@[k] as int),
            forall|k: int, l: int|
                0 <= k < l < out@.len() ==> ranks_before(
                    scores@,
                    #[trigger] out@[k] as int,
                    #[trigger] out@[l] as int,
                ),
            forall|j: int|
                #[trigger] is_match(scores@, j) && !taken@[j] ==> forall|k: int|
                    0 <= k < out@.len() ==> ranks_before(scores@, #[trigger] out@[k] as int, j),
        ensures
            is_ranking(scores@, max_results as int, out@),
        decreases max_results - out@.len(),
    {
        if out.len() >= max_results {
            break;
        }
        let mut best: Option<usize> = None;
        let mut j: usize = 0;
        while j < n
            invariant
                n == scores@.len(),
                taken@.len() == n,
                j <= n,
                match best {
                    None => forall|t: int|
                        0 <= t < j ==> !(#[trigger] is_match(scores@, t) && !taken@[t]),
                    Some(b) => b < j && is_match(scores@, b as int) && !taken@[b as int] && forall|
                        t: int,
                    |
                        0 <= t < j && #[trigger] is_match(scores@, t) && !taken@[t] && t != b
                            ==> ranks_before(scores@, b as int, t),
                },
            decreases n - j,
        {
            if !taken[j] {
                match scores[j] {
                    Some(sj) => {
                        match best {
                            None => {
                                best = Some(j);
                            },
                            Some(b) => {
                                let sb = scores[b].unwrap();
                                if sj > sb {
                                    best = Some(j);
                                }
                            },
                        }
                    },
                    None => {},
                }
            }
            j = j + 1;
        }
        match best {
            None => {
                break;
            },
            Some(b) => {
                proof {
                    assert forall|k: int| 0 <= k < out@.len() implies #[trigger] out@[k] != b by {
                        if out@[k] == b {
                            assert(out@.contains(b));
                        }
                    }
                }
                taken.set(b, true);
                let ghost old_out = out@;
                out.push(b);
                proof {
                    assert forall|t: int| 0 <= t < n implies (#[trigger] taken@[t]
                        <==> out@.contains(t as usize)) by {
                        if t != b {
                            if old_out.contains(t as usize) {
                                let k = choose|k: int| 0 <= k < old_out.len() && old_out[k] == t as usize;
                                assert(out@[k] == t as usize);
                            }
                            if out@.contains(t as usize) {
                                let k = choose|k: int| 0 <= k < out@.len() && out@[k] == t as usize;
                                assert(k < old_out.len());
                                assert(old_out[k] == t as usize);
                            }
                        } else {
                            assert(out@[old_out.len() as int] == b);
                        }
                    }
                    assert forall|k: int, l: int| 0 <= k < l < out@.len() implies ranks_before(
                        scores@,
                        #[trigger] out@[k] as int,
                        #[trigger] out@[l] as int,
                    ) by {
                        if l == old_out.len() {
                            assert(out@[k] == old_out[k]);
                        } else {
                            assert(out@[k] == old_out[k] && out@[l] == old_out[l]);
                        }
                    }
                }
            },
        }
    }
    out
}

/// Rankings are unique: the same scores and bound allow one ranking only, so
/// filtering twice with the same query gives the same view.
pub proof fn lemma_ranking_unique(scores: Seq<Option<i64>>, cap: int, r1: Seq<usize>, r2: Seq<usize>)
    requires
        is_ranking(scores, cap, r1),
        is_ranking(scores, cap, r2),
    ensures
        r1 == r2,
{
    assert forall|k: int| 0 <= k < r1.len() && k < r2.len() implies r1[k] == r2[k] by {
        lemma_ranking_prefix(scores, cap, r1, r2, k);
    }
    if r1.len() < r2.len() {
        lemma_ranking_length(scores, cap, r1, r2);
    } else if r2.len() < r1.len() {
        lemma_ranking_length(scores, cap, r2, r1);
    }
    assert(r1 =~= r2);
}

proof fn lemma_ranking_prefix(scores: Seq<Option<i64>>, cap: int, r1: Seq<usize>, r2: Seq<usize>, k: int)
    requires
        is_ranking(scores, cap, r1),
        is_ranking(scores, cap, r2),
        0 <= k < r1.len(),
        k < r2.len(),
    ensures
        r1[k] == r2[k],
    decreases k,
{
    assert forall|i: int| 0 <= i < k implies r1[i] == r2[i] by {
        lemma_ranking_prefix(scores, cap, r1, r2, i);
    }
    if r1[k] != r2[k] {
        let a = r1[k];
        let b = r2[k];
        assert(is_match(scores, a as int));
        assert(is_match(scores, b as int));
        if ranks_before(scores, a as int, b as int) {
            lemma_first_difference(scores, cap, r1, r2, k);
        } else {
            assert(ranks_before(scores, b as int, a as int));
            lemma_first_difference(scores, cap, r2, r1, k);
        }
    }
}

/// Where two rankings first differ, the better of the two entries cannot be placed in the other.
proof fn lemma_first_difference(scores: Seq<Option<i64>>, cap: int, r1: Seq<usize>, r2: Seq<usize>, k: int)
    requires
        is_ranking(scores, cap, r1),
        is_ranking(scores, cap, r2),
        0 <= k < r1.len(),
        k < r2.len(),
        forall|i: int| 0 <= i < k ==> r1[i] == r2[i],
    ensures
        !ranks_before(scores, r1[k] as int, r2[k] as int),
{
    let a = r1[k];
    let b = r2[k];
    assert(is_match(scores, a as int));
    if !ranks_before(scores, a as int, b as int) {
    } else if r2.contains(a) {
        let l = choose|l: int| 0 <= l < r2.len() && r2[l] == a;
        if l < k {
            assert(r1[l] == a);
            assert(ranks_before(scores, r1[l] as int, r1[k] as int));
        } else {
            assert(ranks_before(scores, r2[k] as int, r2[l] as int));
        }
    } else {
        assert(ranks_before(scores, r2[k] as int, a as int));
    }
}

proof fn lemma_ranking_length(scores: Seq<Option<i64>>, cap: int, r1: Seq<usize>, r2: Seq<usize>)
    requires
        is_ranking(scores, cap, r1),
        is_ranking(scores, cap, r2),
        forall|i: int| 0 <= i < r1.len() && i < r2.len() ==> r1[i] == r2[i],
    ensures
        r2.len() <= r1.len(),
{
    if r2.len() > r1.len() {
        let m = r1.len() as int;
        let b = r2[m];
        assert(is_match(scores, b as int));
        if r1.contains(b) {
            let l = choose|l: int| 0 <= l < r1.len() && r1[l] == b;
            assert(r2[l] == b);
            assert(ranks_before(scores, r2[l] as int, r2[m] as int));
        }
    }
}

} // verus!
