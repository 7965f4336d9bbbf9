//! The search pipeline: the walk's entries under the root, ranked by a query.

use vstd::prelude::*;
use crate::collect::{candidates_of, collect_candidates, lemma_ignored_subtrees_left_out, WalkEntry};
use crate::ignore::is_pruned;
use crate::rank::{lemma_ranked_from_candidates, ranked, scores_of, Ranker};
use crate::text::texts;

verus! {

/// The paths under `root` among the walk's entries that match `search_term`,
/// best first, ties in walk order; the empty term gives every candidate.
/// Whatever the term, every result is a non-empty path below the root that
/// neither is nor lies inside an ignored directory.
pub fn fuzzy_search(
    ranker: &mut Ranker,
    root: &str,
    entries: &Vec<WalkEntry>,
    search_term: &str,
) -> (r: Vec<String>)
    ensures
        ranked(
            candidates_of(root@, entries@),
            scores_of(search_term@, candidates_of(root@, entries@)),
            texts(r@),
        ),
        search_term@.len() == 0 ==> texts(r@) == candidates_of(root@, entries@),
        forall|k: int|
            0 <= k < r@.len() ==> candidates_of(root@, entries@).contains(#[trigger] r@[k]@)
                && r@[k]@.len() > 0 && !is_pruned(r@[k]@, false),
{
    let cands = collect_candidates(root, entries);
    let r = ranker.rank(search_term, &cands);
    proof {
        let c = candidates_of(root@, entries@);
        lemma_ranked_from_candidates(c, scores_of(search_term@, c), texts(r@));
        lemma_ignored_subtrees_left_out(root@, entries@);
        assert forall|k: int| 0 <= k < r@.len() implies c.contains(#[trigger] r@[k]@) && r@[k]@.len()
            > 0 && !is_pruned(r@[k]@, false) by {
            assert(texts(r@)[k] == r@[k]@);
            assert(c.contains(texts(r@)[k]));
            let m = choose|m: int| 0 <= m < c.len() && c[m] == r@[k]@;
            assert(c[m].len() > 0 && !is_pruned(c[m], false));
        }
    }
    r
}

} // verus!
