//! Ranking candidates best-first by their fuzzy-match score against a query.

use vstd::prelude::*;
use nucleo_matcher::{Config, Matcher};
use crate::query::{path_score, score_path, Query};
use crate::text::texts;

verus! {

#[verifier::external_type_specification]
#[verifier::external_body]
pub struct ExMatcher(Matcher);

/// Relies on nucleo_matcher's `Matcher::new` with `Config::DEFAULT.match_paths()`
/// and `prefer_prefix` set: path delimiters and a bonus for matches that start
/// a segment. Its scratch space is reused across calls.
#[verifier::external_body]
fn path_matcher() -> Matcher {
    let mut matcher = Matcher::new(Config::DEFAULT.match_paths());
    matcher.config.prefer_prefix = true;
    matcher
}

/// Candidate `a` comes before candidate `b`: a higher score, or the same score
/// and an earlier place in the input.
pub open spec fn ranks_before(scores: Seq<Option<u32>>, a: int, b: int) -> bool {
    scores[a]->0 > scores[b]->0 || (scores[a]->0 == scores[b]->0 && a < b)
}

/// `order` lists the matched places of `scores` (those with a score), each
/// once, best first, ties in input order.
pub open spec fn is_ranking(scores: Seq<Option<u32>>, order: Seq<int>) -> bool {
    &&& forall|k: int|
        #![trigger order[k]]
        0 <= k < order.len() ==> 0 <= order[k] < scores.len() && scores[order[k]] is Some
    &&& forall|i: int|
        0 <= i < scores.len() && #[trigger] scores[i] is Some ==> order.contains(i)
    &&& forall|k: int, l: int|
        0 <= k < l < order.len() ==> ranks_before(scores, #[trigger] order[k], #[trigger] order[l])
}

/// `out` is `cands` ranked by `scores`: the matched candidates, best first,
/// ties in input order; the unmatched ones left out.
pub open spec fn ranked(cands: Seq<Seq<char>>, scores: Seq<Option<u32>>, out: Seq<Seq<char>>) -> bool {
    exists|order: Seq<int>|
        is_ranking(scores, order) && out.len() == order.len() && forall|k: int|
            0 <= k < out.len() ==> #[trigger] out[k] == cands[order[k]]
}

/// Everything a ranking returns is one of the candidates.
pub proof fn lemma_ranked_from_candidates(
    cands: Seq<Seq<char>>,
    scores: Seq<Option<u32>>,
    out: Seq<Seq<char>>,
)
    requires
        cands.len() == scores.len(),
        ranked(cands, scores, out),
    ensures
        forall|k: int| 0 <= k < out.len() ==> cands.contains(#[trigger] out[k]),
{
    let order = choose|order: Seq<int>|
        is_ranking(scores, order) && out.len() == order.len() && forall|k: int|
            0 <= k < out.len() ==> #[trigger] out[k] == cands[order[k]];
    assert forall|k: int| 0 <= k < out.len() implies cands.contains(#[trigger] out[k]) by {
        assert(0 <= order[k] < scores.len());
        assert(cands[order[k]] == out[k]);
    }
}

/// The scores of `cands` against `query`.
pub open spec fn scores_of(query: Seq<char>, cands: Seq<Seq<char>>) -> Seq<Option<u32>> {
    cands.map_values(|c: Seq<char>| path_score(query, c))
}

/// Every place in `s` is a place of `scores` with a score.
pub open spec fn places_matched(scores: Seq<Option<u32>>, s: Seq<usize>) -> bool {
    forall|k: int| #![trigger s[k]] 0 <= k < s.len() ==> s[k] < scores.len() && scores[s[k] as int] is Some
}

/// The places in `s` are in rank order, each strictly before the next.
pub open spec fn in_rank_order(scores: Seq<Option<u32>>, s: Seq<usize>) -> bool {
    forall|k: int, l: int|
        0 <= k < l < s.len() ==> ranks_before(scores, #[trigger] s[k] as int, #[trigger] s[l] as int)
}

fn ranks_first(scores: &Vec<Option<u32>>, x: usize, y: usize) -> (r: bool)
    requires
        x < scores@.len(),
        y < scores@.len(),
        scores@[x as int] is Some,
        scores@[y as int] is Some,
    ensures
        r == ranks_before(scores@, x as int, y as int),
{
    let sx = scores[x].unwrap();
    let sy = scores[y].unwrap();
    sx > sy || (sx == sy && x < y)
}

/// Merges two rank-ordered runs with no place in common.
fn merge_ranked(a: Vec<usize>, b: Vec<usize>, scores: &Vec<Option<u32>>) -> (r: Vec<usize>)
    requires
        places_matched(scores@, a@),
        places_matched(scores@, b@),
        in_rank_order(scores@, a@),
        in_rank_order(scores@, b@),
        forall|x: usize| a@.contains(x) ==> !b@.contains(x),
    ensures
        places_matched(scores@, r@),
        in_rank_order(scores@, r@),
        r@.to_multiset() == a@.to_multiset().add(b@.to_multiset()),
{
    broadcast use vstd::seq_lib::group_to_multiset_ensures, vstd::multiset::group_multiset_axioms;

    let mut out: Vec<usize> = Vec::new();
    let mut i: usize = 0;
    let mut j: usize = 0;
    assert(a@.take(0) =~= Seq::<usize>::empty());
    assert(b@.take(0) =~= Seq::<usize>::empty());
    while i < a.len() || j < b.len()
        invariant
            i <= a@.len(),
            j <= b@.len(),
            places_matched(scores@, a@),
            places_matched(scores@, b@),
            in_rank_order(scores@, a@),
            in_rank_order(scores@, b@),
            forall|x: usize| a@.contains(x) ==> !b@.contains(x),
            places_matched(scores@, out@),
            in_rank_order(scores@, out@),
            out@.to_multiset() == a@.take(i as int).to_multiset().add(b@.take(j as int).to_multiset()),
            forall|k: int, p: int|
                0 <= k < out@.len() && i <= p < a@.len() ==> ranks_before(
                    scores@,
                    #[trigger] out@[k] as int,
                    #[trigger] a@[p] as int,
                ),
            forall|k: int, q: int|
                0 <= k < out@.len() && j <= q < b@.len() ==> ranks_before(
                    scores@,
                    #[trigger] out@[k] as int,
                    #[trigger] b@[q] as int,
                ),
        decreases a@.len() + b@.len() - i - j,
    {
        let take_a = if i == a.len() {
            false
        } else if j == b.len() {
            true
        } else {
            ranks_first(scores, a[i], b[j])
        };
        let ghost prev = out@;
        if take_a {
            let x = a[i];
            proof {
                if j < b@.len() {
                    assert forall|q: int| j <= q < b@.len() implies ranks_before(scores@, x as int, #[trigger] b@[q] as int) by {
                        if q > j {
                            assert(ranks_before(scores@, b@[j as int] as int, b@[q] as int));
                        }
                    }
                }
            }
            out.push(x);
            assert(a@.take(i + 1) =~= a@.take(i as int).push(x));
            assert(out@ == prev.push(x));
            proof {
                let ta = a@.take(i as int);
                let tb = b@.take(j as int);
                vstd::seq_lib::to_multiset_build(prev, x);
                vstd::seq_lib::to_multiset_build(ta, x);
                assert(prev.to_multiset() == ta.to_multiset().add(tb.to_multiset()));
                assert(out@.to_multiset() =~= ta.push(x).to_multiset().add(tb.to_multiset()));
            }
            i = i + 1;
            assert forall|k: int, p: int|
                0 <= k < out@.len() && i <= p < a@.len() implies ranks_before(
                    scores@,
                    #[trigger] out@[k] as int,
                    #[trigger] a@[p] as int,
                ) by {
                if k < prev.len() {
                    assert(out@[k] == prev[k]);
                } else {
                    assert(ranks_before(scores@, a@[i - 1] as int, a@[p] as int));
                }
            }
            assert forall|k: int, q: int|
                0 <= k < out@.len() && j <= q < b@.len() implies ranks_before(
                    scores@,
                    #[trigger] out@[k] as int,
                    #[trigger] b@[q] as int,
                ) by {
                if k < prev.len() {
                    assert(out@[k] == prev[k]);
                }
            }
            assert forall|k: int, l: int| 0 <= k < l < out@.len() implies ranks_before(
                scores@,
                #[trigger] out@[k] as int,
                #[trigger] out@[l] as int,
            ) by {
                if l == prev.len() {
                    assert(out@[k] == prev[k]);
                    assert(ranks_before(scores@, prev[k] as int, a@[i - 1] as int));
                } else {
                    assert(out@[k] == prev[k] && out@[l] == prev[l]);
                }
            }
        } else {
            let y = b[j];
            proof {
                if i < a@.len() {
                    assert(a@.contains(a@[i as int]));
                    assert(a@[i as int] != y);
                    assert forall|p: int| i <= p < a@.len() implies ranks_before(scores@, y as int, #[trigger] a@[p] as int) by {
                        if p > i {
                            assert(ranks_before(scores@, a@[i as int] as int, a@[p] as int));
                        }
                    }
                }
            }
            out.push(y);
            assert(b@.take(j + 1) =~= b@.take(j as int).push(y));
            assert(out@ == prev.push(y));
            proof {
                let ta = a@.take(i as int);
                let tb = b@.take(j as int);
                vstd::seq_lib::to_multiset_build(prev, y);
                vstd::seq_lib::to_multiset_build(tb, y);
                assert(prev.to_multiset() == ta.to_multiset().add(tb.to_multiset()));
                assert(out@.to_multiset() =~= ta.to_multiset().add(tb.push(y).to_multiset()));
            }
            j = j + 1;
            assert forall|k: int, q: int|
                0 <= k < out@.len() && j <= q < b@.len() implies ranks_before(
                    scores@,
                    #[trigger] out@[k] as int,
                    #[trigger] b@[q] as int,
                ) by {
                if k < prev.len() {
                    assert(out@[k] == prev[k]);
                } else {
                    assert(ranks_before(scores@, b@[j - 1] as int, b@[q] as int));
                }
            }
            assert forall|k: int, p: int|
                0 <= k < out@.len() && i <= p < a@.len() implies ranks_before(
                    scores@,
                    #[trigger] out@[k] as int,
                    #[trigger] a@[p] as int,
                ) by {
                if k < prev.len() {
                    assert(out@[k] == prev[k]);
                }
            }
            assert forall|k: int, l: int| 0 <= k < l < out@.len() implies ranks_before(
                scores@,
                #[trigger] out@[k] as int,
                #[trigger] out@[l] as int,
            ) by {
                if l == prev.len() {
                    assert(out@[k] == prev[k]);
                    assert(ranks_before(scores@, prev[k] as int, b@[j - 1] as int));
                } else {
                    assert(out@[k] == prev[k] && out@[l] == prev[l]);
                }
            }
        }
    }
    assert(a@.take(a@.len() as int) =~= a@);
    assert(b@.take(b@.len() as int) =~= b@);
    out
}

/// Sorts distinct matched places into rank order.
fn sort_ranked(v: Vec<usize>, scores: &Vec<Option<u32>>) -> (r: Vec<usize>)
    requires
        places_matched(scores@, v@),
        forall|k: int, l: int| 0 <= k < l < v@.len() ==> v@[k] != v@[l],
    ensures
        places_matched(scores@, r@),
        in_rank_order(scores@, r@),
        r@.to_multiset() == v@.to_multiset(),
    decreases v@.len(),
{
    broadcast use vstd::seq_lib::group_to_multiset_ensures, vstd::multiset::group_multiset_axioms;

    if v.len() <= 1 {
        return v;
    }
    let ghost whole = v@;
    let mid = v.len() / 2;
    let mut left = v;
    let right = left.split_off(mid);
    assert(whole =~= left@ + right@);
    assert forall|k: int| #![trigger left@[k]] 0 <= k < left@.len() implies left@[k] == whole[k] by {}
    assert forall|k: int| #![trigger right@[k]] 0 <= k < right@.len() implies right@[k] == whole[mid + k] by {}
    let ghost lv = left@;
    let ghost rv = right@;
    let sl = sort_ranked(left, scores);
    let sr = sort_ranked(right, scores);
    assert forall|x: usize| sl@.contains(x) implies !sr@.contains(x) by {
        assert(sl@.to_multiset().count(x) > 0);
        assert(lv.contains(x));
        if sr@.contains(x) {
            assert(sr@.to_multiset().count(x) > 0);
            assert(rv.contains(x));
            let k = choose|k: int| 0 <= k < lv.len() && lv[k] == x;
            let m = choose|m: int| 0 <= m < rv.len() && rv[m] == x;
            assert(whole[k] == whole[mid + m]);
        }
    }
    proof {
        vstd::seq_lib::lemma_multiset_commutative(lv, rv);
    }
    merge_ranked(sl, sr, scores)
}

/// Ranks `cands` by the given scores (`None`: no match): the matched ones,
/// best score first, equal scores in input order.
pub fn rank_scored(cands: &Vec<String>, scores: &Vec<Option<u32>>) -> (r: Vec<String>)
    requires
        cands@.len() == scores@.len(),
    ensures
        ranked(texts(cands@), scores@, texts(r@)),
{
    broadcast use vstd::seq_lib::group_to_multiset_ensures;

    let n = scores.len();
    let mut matched: Vec<usize> = Vec::new();
    let mut i: usize = 0;
    while i < n
        invariant
            n == scores@.len(),
            i <= n,
            places_matched(scores@, matched@),
            forall|k: int| #![trigger matched@[k]] 0 <= k < matched@.len() ==> matched@[k] < i,
            forall|k: int, l: int| 0 <= k < l < matched@.len() ==> #[trigger] matched@[k] < #[trigger] matched@[l],
            forall|j: int| 0 <= j < i && #[trigger] scores@[j] is Some ==> matched@.contains(j as usize),
        decreases n - i,
    {
        let ghost prev = matched@;
        if scores[i].is_some() {
            matched.push(i);
            assert(matched@[matched@.len() - 1] == i);
            assert forall|j: int| 0 <= j < i + 1 && #[trigger] scores@[j] is Some implies matched@.contains(j as usize) by {
                if j < i {
                    let k = choose|k: int| 0 <= k < prev.len() && prev[k] == j as usize;
                    assert(matched@[k] == j as usize);
                }
            }
        }
        i = i + 1;
    }
    let ghost all = matched@;
    let order = sort_ranked(matched, scores);
    assert forall|j: int| 0 <= j < n && #[trigger] scores@[j] is Some implies order@.contains(j as usize) by {
        assert(all.contains(j as usize));
        assert(all.to_multiset().count(j as usize) > 0);
    }
    let mut out: Vec<String> = Vec::new();
    let mut k: usize = 0;
    while k < order.len()
        invariant
            n == scores@.len(),
            n == cands@.len(),
            k <= order@.len(),
            out@.len() == k,
            forall|k: int| #![trigger order@[k]] 0 <= k < order@.len() ==> order@[k] < n,
            forall|m: int| 0 <= m < k ==> #[trigger] out@[m] == cands@[order@[m] as int],
        decreases order@.len() - k,
    {
        out.push(cands[order[k]].clone());
        k = k + 1;
    }
    let ghost ord = order@.map_values(|x: usize| x as int);
    assert(is_ranking(scores@, ord)) by {
        assert forall|i: int| 0 <= i < scores@.len() && #[trigger] scores@[i] is Some implies ord.contains(i) by {
            let k = choose|k: int| 0 <= k < order@.len() && order@[k] == i as usize;
            assert(ord[k] == i);
        }
        assert forall|k: int| #![trigger ord[k]] 0 <= k < ord.len() implies 0 <= ord[k] < scores@.len()
            && scores@[ord[k]] is Some by {
            assert(ord[k] == order@[k] as int);
        }
        assert forall|k: int, l: int| 0 <= k < l < ord.len() implies ranks_before(
            scores@,
            #[trigger] ord[k],
            #[trigger] ord[l],
        ) by {
            assert(ord[k] == order@[k] as int && ord[l] == order@[l] as int);
            assert(ranks_before(scores@, order@[k] as int, order@[l] as int));
        }
    }
    assert(texts(out@).len() == ord.len());
    assert forall|m: int| 0 <= m < texts(out@).len() implies #[trigger] texts(out@)[m] == texts(cands@)[ord[m]] by {}
    out
}

proof fn lemma_cover_prefix(order: Seq<int>, n: int, k: int)
    requires
        0 <= k < order.len(),
        forall|m: int| #![trigger order[m]] 0 <= m < order.len() ==> 0 <= order[m] < n,
        forall|i: int| 0 <= i < n ==> #[trigger] order.contains(i),
        forall|a: int, b: int| 0 <= a < b < order.len() ==> #[trigger] order[a] < #[trigger] order[b],
    ensures
        forall|j: int| 0 <= j <= k ==> #[trigger] order[j] == j,
    decreases k,
{
    if k > 0 {
        lemma_cover_prefix(order, n, k - 1);
        assert(order[k] > order[k - 1]);
    }
    assert(order[k] >= k);
    assert(order.contains(k));
    let m = choose|m: int| 0 <= m < order.len() && order[m] == k;
    if m < k {
        assert(order[m] == m);
    } else if m > k {
        assert(order[k] < order[m]);
    }
}

/// When every candidate has the same score, ranking keeps them all, in input
/// order.
pub proof fn lemma_equal_scores_keep_order(
    cands: Seq<Seq<char>>,
    scores: Seq<Option<u32>>,
    s: u32,
    out: Seq<Seq<char>>,
)
    requires
        cands.len() == scores.len(),
        forall|i: int| 0 <= i < scores.len() ==> #[trigger] scores[i] == Some(s),
        ranked(cands, scores, out),
    ensures
        out == cands,
{
    let order = choose|order: Seq<int>|
        is_ranking(scores, order) && out.len() == order.len() && forall|k: int|
            0 <= k < out.len() ==> #[trigger] out[k] == cands[order[k]];
    let n = scores.len() as int;
    assert forall|a: int, b: int| 0 <= a < b < order.len() implies #[trigger] order[a] < #[trigger] order[b] by {
        assert(ranks_before(scores, order[a], order[b]));
        assert(scores[order[a]] == Some(s) && scores[order[b]] == Some(s));
    }
    assert forall|i: int| 0 <= i < n implies #[trigger] order.contains(i) by {
        assert(scores[i] is Some);
    }
    if order.len() > 0 {
        lemma_cover_prefix(order, n, order.len() - 1);
    }
    if order.len() < n {
        let l = order.len() as int;
        assert(order.contains(l));
        let m = choose|m: int| 0 <= m < order.len() && order[m] == l;
        assert(order[m] == m);
    }
    if order.len() > n {
        lemma_cover_prefix(order, n, n);
        assert(order[n] == n);
    }
    assert(out =~= cands);
}

/// Ranks paths against a query, with the matching setup made once and reused.
pub struct Ranker {
    matcher: Matcher,
}

impl Ranker {
    /// A ranker for paths: case-insensitive, Unicode-normalized, `/` as the
    /// segment delimiter, matches at a segment start preferred.
    pub fn new() -> (r: Ranker) {
        Ranker { matcher: path_matcher() }
    }

    /// The candidates that match `query`, best first; equal scores keep their
    /// input order. The empty query keeps every candidate, in input order.
    pub fn rank(&mut self, query: &str, candidates: &Vec<String>) -> (r: Vec<String>)
        ensures
            ranked(texts(candidates@), scores_of(query@, texts(candidates@)), texts(r@)),
            query@.len() == 0 ==> texts(r@) == texts(candidates@),
    {
        let q = Query::new(query);
        let n = candidates.len();
        let mut scores: Vec<Option<u32>> = Vec::new();
        let mut i: usize = 0;
        while i < n
            invariant
                n == candidates@.len(),
                q.text() == query@,
                i <= n,
                scores@.len() == i,
                forall|k: int|
                    0 <= k < i ==> #[trigger] scores@[k] == path_score(query@, candidates@[k]@),
                query@.len() == 0 ==> forall|k: int| 0 <= k < i ==> #[trigger] scores@[k] == Some(
                    0u32,
                ),
            decreases n - i,
        {
            let sc = score_path(&mut self.matcher, &q, candidates[i].as_str());
            scores.push(sc);
            i = i + 1;
        }
        assert(scores@ =~= scores_of(query@, texts(candidates@)));
        let r = rank_scored(candidates, &scores);
        proof {
            if query@.len() == 0 {
                lemma_equal_scores_keep_order(texts(candidates@), scores@, 0u32, texts(r@));
            }
        }
        r
    }
}

} // verus!
