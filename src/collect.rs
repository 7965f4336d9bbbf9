//! Turning the entries of a walk under a project root into search candidates.

use vstd::prelude::*;
use crate::ignore::{is_ignored_name, is_pruned, is_segment, pruned};
use crate::text::{chars_of, suffix_from, texts};

verus! {

/// One entry met while walking a directory tree: its full path and whether
/// it is a directory.
pub struct WalkEntry {
    pub path: String,
    pub is_dir: bool,
}

/// Where the part of `path` below `root` starts: after `root` and one `/`;
/// right after `root` when `root` itself ends in `/`; at 0 when `path` is not
/// below `root`, so that the path is kept whole.
pub open spec fn relative_start(root: Seq<char>, path: Seq<char>) -> int {
    if root.len() <= path.len() && path.subrange(0, root.len() as int) == root {
        if root.len() == path.len() {
            root.len() as int
        } else if path[root.len() as int] == '/' {
            root.len() + 1int
        } else if root.len() > 0 && root.last() == '/' {
            root.len() as int
        } else {
            0
        }
    } else {
        0
    }
}

/// `path` made relative to `root`.
pub open spec fn relative_to(root: Seq<char>, path: Seq<char>) -> Seq<char> {
    path.skip(relative_start(root, path))
}

/// The walk entry `e` becomes a candidate: it is not the root and not pruned.
pub open spec fn is_kept(root: Seq<char>, e: WalkEntry) -> bool {
    let r = relative_to(root, e.path@);
    r.len() > 0 && !is_pruned(r, e.is_dir)
}

/// The candidates that the walk entries `es` give under `root`, in walk order.
pub open spec fn candidates_of(root: Seq<char>, es: Seq<WalkEntry>) -> Seq<Seq<char>>
    decreases es.len(),
{
    if es.len() == 0 {
        Seq::empty()
    } else {
        let prev = candidates_of(root, es.drop_last());
        if is_kept(root, es.last()) {
            prev.push(relative_to(root, es.last().path@))
        } else {
            prev
        }
    }
}

fn relative_start_of(root: &Vec<char>, path: &Vec<char>) -> (r: usize)
    ensures
        r == relative_start(root@, path@),
        r <= path@.len(),
{
    let rn = root.len();
    let pn = path.len();
    if rn > pn {
        return 0;
    }
    let mut k: usize = 0;
    while k < rn
        invariant
            rn == root@.len(),
            pn == path@.len(),
            rn <= pn,
            k <= rn,
            forall|m: int| 0 <= m < k ==> path@[m] == root@[m],
        decreases rn - k,
    {
        if path[k] != root[k] {
            assert(path@.subrange(0, rn as int)[k as int] != root@[k as int]);
            return 0;
        }
        k = k + 1;
    }
    assert(path@.subrange(0, rn as int) =~= root@);
    if rn == pn {
        rn
    } else if path[rn] == '/' {
        rn + 1
    } else if rn > 0 && root[rn - 1] == '/' {
        rn
    } else {
        0
    }
}

/// The search candidates under `root` among the walk entries: each entry's
/// path made relative to `root`, leaving out the root itself and everything
/// inside an ignored directory. Walk order is kept.
pub fn collect_candidates(root: &str, entries: &Vec<WalkEntry>) -> (r: Vec<String>)
    ensures
        texts(r@) == candidates_of(root@, entries@),
{
    let rc = chars_of(root);
    let mut out: Vec<String> = Vec::new();
    let mut i: usize = 0;
    while i < entries.len()
        invariant
            rc@ == root@,
            i <= entries@.len(),
            texts(out@) == candidates_of(root@, entries@.take(i as int)),
        decreases entries@.len() - i,
    {
        let e = &entries[i];
        let pc = chars_of(e.path.as_str());
        let from = relative_start_of(&rc, &pc);
        let n = pc.len();
        let rel = if from < n {
            let mut pc2 = pc;
            let tail = pc2.split_off(from);
            tail
        } else {
            Vec::new()
        };
        assert(entries@.take(i + 1).drop_last() =~= entries@.take(i as int));
        proof {
            assert(entries@.take(i + 1).last() == entries@[i as int]);
        }
        if from < n && !pruned(&rel, e.is_dir) {
            let s = suffix_from(e.path.as_str(), from);
            out.push(s);
            assert(texts(out@) =~= candidates_of(root@, entries@.take(i + 1)));
        } else {
            assert(texts(out@) =~= candidates_of(root@, entries@.take(i + 1)));
        }
        i = i + 1;
    }
    assert(entries@.take(entries@.len() as int) =~= entries@);
    out
}

/// No candidate lies inside an ignored directory, and every entry that is
/// neither the root nor inside (or itself) an ignored directory is a candidate:
/// the siblings of an ignored directory stay.
pub proof fn lemma_ignored_subtrees_left_out(root: Seq<char>, es: Seq<WalkEntry>)
    ensures
        forall|k: int|
            0 <= k < candidates_of(root, es).len() ==> #[trigger] candidates_of(root, es)[k].len()
                > 0 && !is_pruned(candidates_of(root, es)[k], false),
        forall|k: int|
            0 <= k < es.len() && is_kept(root, #[trigger] es[k]) ==> candidates_of(
                root,
                es,
            ).contains(relative_to(root, es[k].path@)),
    decreases es.len(),
{
    if es.len() > 0 {
        let prev = es.drop_last();
        lemma_ignored_subtrees_left_out(root, prev);
        let out = candidates_of(root, es);
        assert forall|k: int|
            0 <= k < out.len() implies #[trigger] out[k].len() > 0 && !is_pruned(
                out[k],
                false,
            ) by {
            if k < candidates_of(root, prev).len() {
                assert(out[k] == candidates_of(root, prev)[k]);
            } else {
                let r = relative_to(root, es.last().path@);
                assert(out[k] == r);
                if is_pruned(r, false) {
                    let (i, j) = choose|i: int, j: int|
                        #[trigger] is_segment(r, i, j) && is_ignored_name(
                            r.subrange(i, j),
                        ) && (j < r.len() || false);
                    assert(is_segment(r, i, j));
                }
            }
        }
        assert forall|k: int|
            0 <= k < es.len() && is_kept(root, #[trigger] es[k]) implies out.contains(
                relative_to(root, es[k].path@),
            ) by {
            if k < es.len() - 1 {
                assert(prev[k] == es[k]);
                let c = candidates_of(root, prev);
                let m = choose|m: int| 0 <= m < c.len() && c[m] == relative_to(root, es[k].path@);
                assert(out[m] == c[m]);
            } else {
                assert(out[out.len() - 1] == relative_to(root, es[k].path@));
            }
        }
    }
}

/// Every entry strictly below `root` (its path is `root`, a `/`, and more),
/// none inside an ignored directory: each gives one candidate, its path
/// below `root`, in walk order; distinct entries give distinct candidates.
pub proof fn lemma_unignored_tree_kept_whole(root: Seq<char>, es: Seq<WalkEntry>)
    requires
        forall|k: int|
            #![trigger es[k]]
            0 <= k < es.len() ==> es[k].path@.len() > root.len() + 1 && es[k].path@.subrange(
                0,
                root.len() as int,
            ) == root && es[k].path@[root.len() as int] == '/' && !is_pruned(
                es[k].path@.skip(root.len() + 1int),
                es[k].is_dir,
            ),
        forall|k: int, l: int| 0 <= k < l < es.len() ==> es[k].path@ != es[l].path@,
    ensures
        candidates_of(root, es).len() == es.len(),
        forall|k: int|
            0 <= k < es.len() ==> #[trigger] candidates_of(root, es)[k] == es[k].path@.skip(
                root.len() + 1int,
            ),
        forall|k: int, l: int|
            0 <= k < l < es.len() ==> candidates_of(root, es)[k] != candidates_of(root, es)[l],
    decreases es.len(),
{
    if es.len() > 0 {
        let prev = es.drop_last();
        assert forall|k: int, l: int| 0 <= k < l < prev.len() implies prev[k].path@ != prev[l].path@ by {
            assert(prev[k] == es[k] && prev[l] == es[l]);
        }
        assert forall|k: int| #![trigger prev[k]] 0 <= k < prev.len() implies prev[k] == es[k] by {}
        lemma_unignored_tree_kept_whole(root, prev);
        let last = es.last();
        assert(last == es[es.len() - 1]);
        assert(relative_start(root, last.path@) == root.len() + 1int);
        let out = candidates_of(root, es);
        assert(is_kept(root, last));
        assert forall|k: int| 0 <= k < es.len() implies #[trigger] out[k] == es[k].path@.skip(
            root.len() + 1int,
        ) by {
            if k < es.len() - 1 {
                assert(prev[k] == es[k]);
            }
        }
        assert forall|k: int, l: int| 0 <= k < l < es.len() implies out[k] != out[l] by {
            let pk = es[k].path@;
            let pl = es[l].path@;
            if out[k] == out[l] {
                assert(pk =~= pk.subrange(0, root.len() + 1int) + out[k]);
                assert(pl =~= pl.subrange(0, root.len() + 1int) + out[l]);
                let a = pk.subrange(0, root.len() + 1int);
                let b = pl.subrange(0, root.len() + 1int);
                assert forall|m: int| 0 <= m < root.len() + 1 implies #[trigger] a[m] == b[m] by {
                    if m < root.len() {
                        assert(pk.subrange(0, root.len() as int)[m] == root[m]);
                        assert(pl.subrange(0, root.len() as int)[m] == root[m]);
                    }
                }
                assert(a =~= b);
            }
        }
    }
}

} // verus!
