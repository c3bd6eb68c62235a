//! The search for recipes by name: scored by a fuzzy matcher, best first.

use vstd::prelude::*;
use fuzzy_matcher::FuzzyMatcher;
use crate::recipe::Recipe;

verus! {

/// The score that the matcher `fuzzy_matcher::skim::SkimMatcherV2`, as
/// `default` makes it, gives `choice` for `pattern`; `None` where the
/// pattern does not match.
pub uninterp spec fn skim_score(choice: Seq<char>, pattern: Seq<char>) -> Option<i64>;

/// Calls `fuzzy_match` on a `SkimMatcherV2::default()`. The result is the
/// one named `skim_score`.
#[verifier::external_body]
pub(crate) fn fuzzy_score(choice: &str, pattern: &str) -> (r: Option<i64>)
    ensures
        r == skim_score(choice@, pattern@),
{
    fuzzy_matcher::skim::SkimMatcherV2::default().fuzzy_match(choice, pattern)
}

/// A recipe that matched: its place in the list searched, and its score.
#[derive(Clone, Copy, Debug)]
pub struct SearchHit {
    pub index: usize,
    pub score: i64,
}

/// Whether `a` is listed before `b`: by the higher score, and among equal
/// scores by the earlier place.
pub open spec fn ranks_before(a: SearchHit, b: SearchHit) -> bool {
    a.score > b.score || (a.score == b.score && a.index < b.index)
}

/// Whether every hit of `hits` ranks before all that follow it.
pub open spec fn ranked(hits: Seq<SearchHit>) -> bool {
    forall|a: int, b: int| 0 <= a < b < hits.len() ==> ranks_before(hits[a], hits[b])
}

/// Whether `hits` lists the place `index`.
pub open spec fn lists(hits: Seq<SearchHit>, index: int) -> bool {
    exists|k: int| 0 <= k < hits.len() && (#[trigger] hits[k]).index == index
}

/// Whether `hits` is the ranking of `scores`: it holds every place that has
/// a score, with that score, best first.
pub open spec fn is_ranking(hits: Seq<SearchHit>, scores: Seq<Option<i64>>) -> bool {
    &&& ranked(hits)
    &&& forall|k: int|
        0 <= k < hits.len() ==> (#[trigger] hits[k]).index < scores.len() && scores[hits[k].index as int]
            == Some(hits[k].score)
    &&& forall|i: int| 0 <= i < scores.len() && (#[trigger] scores[i]) is Some ==> lists(hits, i)
}

/// The name searched in each recipe, scored against `query`.
pub open spec fn name_scores(recipes: Seq<Recipe>, query: Seq<char>) -> Seq<Option<i64>> {
    Seq::new(recipes.len(), |i: int| skim_score(recipes[i]@.name, query))
}

/// Searches recipes by name.
#[derive(Debug)]
pub struct SearchEngine;

impl SearchEngine {
    /// Ranks the places that have a score: the higher score first, equal
    /// scores in the order of their places.
    pub fn rank(scores: &Vec<Option<i64>>) -> (r: Vec<SearchHit>)
        ensures
            is_ranking(r@, scores@),
    {
        let mut hits: Vec<SearchHit> = Vec::new();
        let mut i: usize = 0;
        while i < scores.len()
            invariant
                i <= scores.len(),
                is_ranking(hits@, scores@.take(i as int)),
            decreases scores.len() - i,
        {
            let ghost before = hits@;
            let ghost seen = scores@.take(i as int);
            match scores[i] {
                None => {
                    proof {
                        let now = scores@.take(i + 1);
                        assert forall|m: int| 0 <= m < now.len() && (#[trigger] now[m]) is Some implies lists(
                            before,
                            m,
                        ) by {
                            assert(seen[m] is Some);
                        }
                        assert forall|k: int| 0 <= k < before.len() implies (#[trigger] before[k]).index
                            < now.len() && now[before[k].index as int] == Some(before[k].score) by {
                            assert(seen[before[k].index as int] == Some(before[k].score));
                        }
                    }
                },
                Some(score) => {
                    let mut at: usize = 0;
                    while at < hits.len() && hits[at].score >= score
                        invariant
                            at <= hits.len(),
                            forall|a: int| 0 <= a < at ==> (#[trigger] hits@[a]).score >= score,
                        decreases hits.len() - at,
                    {
                        at = at + 1;
                    }
                    let hit = SearchHit { index: i, score };
                    hits.insert(at, hit);
                    proof {
                        let now = scores@.take(i + 1);
                        let after = hits@;
                        assert(after == before.insert(at as int, hit));
                        assert forall|k: int| 0 <= k < before.len() implies (#[trigger] before[k]).index
                            < i by {
                            assert(before[k].index < seen.len());
                        }
                        assert forall|a: int, b: int| 0 <= a < b < after.len() implies ranks_before(
                            after[a],
                            after[b],
                        ) by {
                            if b < at {
                                assert(ranks_before(before[a], before[b]));
                            } else if b == at {
                                assert(after[a] == before[a]);
                                assert(before[a].score >= score);
                                assert(before[a].index < i);
                            } else if a == at {
                                assert(after[b] == before[b - 1]);
                                if at < b - 1 {
                                    assert(ranks_before(before[at as int], before[b - 1]));
                                }
                            } else if a < at {
                                assert(after[a] == before[a]);
                                assert(after[b] == before[b - 1]);
                                assert(ranks_before(before[a], before[b - 1]));
                            } else {
                                assert(after[a] == before[a - 1]);
                                assert(after[b] == before[b - 1]);
                                assert(ranks_before(before[a - 1], before[b - 1]));
                            }
                        }
                        assert forall|k: int| 0 <= k < after.len() implies (#[trigger] after[k]).index
                            < now.len() && now[after[k].index as int] == Some(after[k].score) by {
                            if k < at {
                                assert(after[k] == before[k]);
                                assert(seen[before[k].index as int] == Some(before[k].score));
                            } else if k > at {
                                assert(after[k] == before[k - 1]);
                                assert(seen[before[k - 1].index as int] == Some(before[k - 1].score));
                            }
                        }
                        assert forall|m: int| 0 <= m < now.len() && (#[trigger] now[m]) is Some implies lists(
                            after,
                            m,
                        ) by {
                            if m < i {
                                assert(seen[m] is Some);
                                assert(lists(before, m));
                                let k = choose|k: int|
                                    0 <= k < before.len() && (#[trigger] before[k]).index == m;
                                if k < at {
                                    assert(after[k].index == m);
                                } else {
                                    assert(after[k + 1].index == m);
                                }
                            } else {
                                assert(after[at as int].index == m);
                            }
                        }
                    }
                },
            }
            i = i + 1;
        }
        assert(scores@.take(scores.len() as int) =~= scores@);
        hits
    }

    /// The recipes whose name matches `query`, ranked: the better match
    /// first, equal matches in the order of the list. Each hit holds the
    /// place of its recipe in `recipes`.
    pub fn search(query: &str, recipes: &Vec<Recipe>) -> (r: Vec<SearchHit>)
        ensures
            is_ranking(r@, name_scores(recipes@, query@)),
    {
        let mut scores: Vec<Option<i64>> = Vec::new();
        let mut i: usize = 0;
        while i < recipes.len()
            invariant
                i <= recipes.len(),
                scores@.len() == i,
                forall|k: int| 0 <= k < i ==> #[trigger] scores@[k] == skim_score(recipes@[k]@.name, query@),
            decreases recipes.len() - i,
        {
            scores.push(fuzzy_score(recipes[i].name.0.as_str(), query));
            i = i + 1;
        }
        assert(scores@ =~= name_scores(recipes@, query@));
        Self::rank(&scores)
    }
}

} // verus!
