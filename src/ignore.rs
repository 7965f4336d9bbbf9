//! The fixed set of directory names whose subtrees are left out of a walk.

use vstd::prelude::*;
use crate::text::chars_of;

verus! {

/// `n` names a build-output, dependency, version-control or virtual-env directory.
pub open spec fn is_ignored_name(n: Seq<char>) -> bool {
    ||| n == seq!['t', 'a', 'r', 'g', 'e', 't']
    ||| n == seq!['n', 'o', 'd', 'e', '_', 'm', 'o', 'd', 'u', 'l', 'e', 's']
    ||| n == seq!['.', 'g', 'i', 't']
    ||| n == seq!['.', 'v', 'e', 'n', 'v']
}

/// `p[i..j]` is one whole segment of the `/`-separated path `p`.
pub open spec fn is_segment(p: Seq<char>, i: int, j: int) -> bool {
    &&& 0 <= i <= j <= p.len()
    &&& i == 0 || p[i - 1] == '/'
    &&& j == p.len() || p[j] == '/'
    &&& forall|k: int| i <= k < j ==> p[k] != '/'
}

/// The entry at relative path `p` lies inside an ignored directory, or is one
/// itself (`is_dir`).
pub open spec fn is_pruned(p: Seq<char>, is_dir: bool) -> bool {
    exists|i: int, j: int|
        #[trigger] is_segment(p, i, j) && is_ignored_name(p.subrange(i, j)) && (j < p.len()
            || is_dir)
}

/// Whether `p[i..j]` spells `w`.
fn spells(p: &Vec<char>, i: usize, j: usize, w: &[char]) -> (r: bool)
    requires
        i <= j <= p@.len(),
    ensures
        r == (p@.subrange(i as int, j as int) == w@),
{
    if j - i != w.len() {
        return false;
    }
    let mut k: usize = 0;
    while k < w.len()
        invariant
            j - i == w@.len(),
            i <= j <= p@.len(),
            k <= w@.len(),
            forall|m: int| 0 <= m < k ==> p@[i + m] == w@[m],
        decreases w@.len() - k,
    {
        if p[i + k] != w[k] {
            assert(p@.subrange(i as int, j as int)[k as int] != w@[k as int]);
            return false;
        }
        k = k + 1;
    }
    assert(p@.subrange(i as int, j as int) =~= w@);
    true
}

/// Whether `p[i..j]` is one of the ignored directory names.
fn ignored_at(p: &Vec<char>, i: usize, j: usize) -> (r: bool)
    requires
        i <= j <= p@.len(),
    ensures
        r == is_ignored_name(p@.subrange(i as int, j as int)),
{
    let a: [char; 6] = ['t', 'a', 'r', 'g', 'e', 't'];
    let b: [char; 12] = ['n', 'o', 'd', 'e', '_', 'm', 'o', 'd', 'u', 'l', 'e', 's'];
    let c: [char; 4] = ['.', 'g', 'i', 't'];
    let d: [char; 5] = ['.', 'v', 'e', 'n', 'v'];
    let ra = spells(p, i, j, &a);
    let rb = spells(p, i, j, &b);
    let rc = spells(p, i, j, &c);
    let rd = spells(p, i, j, &d);
    assert(a@ =~= seq!['t', 'a', 'r', 'g', 'e', 't']);
    assert(b@ =~= seq!['n', 'o', 'd', 'e', '_', 'm', 'o', 'd', 'u', 'l', 'e', 's']);
    assert(c@ =~= seq!['.', 'g', 'i', 't']);
    assert(d@ =~= seq!['.', 'v', 'e', 'n', 'v']);
    ra || rb || rc || rd
}

/// Whether a walk must leave out the entry named `name`, and not descend into
/// it: it is a directory whose name is in the ignore set.
pub fn is_ignored_dir(name: &str, is_dir: bool) -> (r: bool)
    ensures
        r == (is_dir && is_ignored_name(name@)),
{
    if !is_dir {
        return false;
    }
    let cs = chars_of(name);
    let r = ignored_at(&cs, 0, cs.len());
    assert(cs@.subrange(0, cs@.len() as int) =~= name@);
    r
}

/// Whether the entry at relative path `p` must be left out of a walk's result:
/// some directory on its way, or the entry itself if it is a directory, is ignored.
pub fn pruned(p: &Vec<char>, is_dir: bool) -> (r: bool)
    ensures
        r == is_pruned(p@, is_dir),
{
    let n = p.len();
    let mut start: usize = 0;
    let mut pos: usize = 0;
    while pos <= n
        invariant
            n == p@.len(),
            start <= pos <= n,
            start == 0 || p@[start - 1] == '/',
            forall|k: int| start <= k < pos ==> p@[k] != '/',
            forall|i: int, j: int|
                #![trigger is_segment(p@, i, j)]
                is_segment(p@, i, j) && j < pos ==> !(is_ignored_name(p@.subrange(i, j)) && (j
                    < p@.len() || is_dir)),
        decreases n + 1 - pos,
    {
        if pos == n || p[pos] == '/' {
            if (pos < n || is_dir) && ignored_at(p, start, pos) {
                assert(is_segment(p@, start as int, pos as int));
                return true;
            }
            assert forall|i: int, j: int|
                #![trigger is_segment(p@, i, j)]
                is_segment(p@, i, j) && j == pos implies !(is_ignored_name(p@.subrange(i, j)) && (j
                    < p@.len() || is_dir)) by {
                if i < start {
                    assert(p@[start - 1] == '/');
                } else if i > start {
                    assert(p@[i - 1] == '/');
                }
            }
            if pos == n {
                return false;
            }
            start = pos + 1;
        }
        pos = pos + 1;
    }
    false
}

} // verus!
