//! Resolving a file path that a tool call names against the project root.

use vstd::prelude::*;
use vstd::string::StringExecFns;
use crate::ignore::is_segment;
use crate::text::chars_of;

verus! {

/// The arguments of the read-file tool: a path relative to the project root.
pub struct ReadFileToolArgs {
    pub path: String,
}

/// `rel` leaves the directory it is resolved against: it is absolute, or one
/// of its segments is `..`.
pub open spec fn escapes(rel: Seq<char>) -> bool {
    ||| rel.len() > 0 && rel[0] == '/'
    ||| exists|i: int, j: int| #[trigger] is_segment(rel, i, j) && rel.subrange(i, j) == seq!['.', '.']
}

/// Whether some segment of `p` is `..`.
fn has_parent_segment(p: &Vec<char>) -> (r: bool)
    ensures
        r == exists|i: int, j: int| #[trigger] is_segment(p@, i, j) && p@.subrange(i, j) == seq!['.', '.'],
{
    let n = p.len();
    let mut start: usize = 0;
    let mut pos: usize = 0;
    while pos <= n
        invariant
            n == p@.len(),
            start <= pos <= n,
            start == 0 || p@[start - 1] == '/',
            forall|k: int| start <= k < pos ==> p@[k] != '/',
            forall|i: int, j: int|
                #![trigger is_segment(p@, i, j)]
                is_segment(p@, i, j) && j < pos ==> p@.subrange(i, j) != seq!['.', '.'],
        decreases n + 1 - pos,
    {
        if pos == n || p[pos] == '/' {
            if pos - start == 2 && p[start] == '.' && p[start + 1] == '.' {
                assert(is_segment(p@, start as int, pos as int));
                assert(p@.subrange(start as int, pos as int) =~= seq!['.', '.']);
                return true;
            }
            assert forall|i: int, j: int|
                #![trigger is_segment(p@, i, j)]
                is_segment(p@, i, j) && j == pos implies p@.subrange(i, j) != seq!['.', '.'] by {
                if i < start {
                    assert(p@[start - 1] == '/');
                } else if i > start {
                    assert(p@[i - 1] == '/');
                } else if p@.subrange(i, j) == seq!['.', '.'] {
                    let w = p@.subrange(i, j);
                    assert(w.len() == 2 && w[0] == '.' && w[1] == '.');
                    assert(p@[i] == w[0] && p@[i + 1] == w[1]);
                }
            }
            if pos == n {
                return false;
            }
            start = pos + 1;
        }
        pos = pos + 1;
    }
    false
}

/// The path of the file that the tool names, under the project root `cwd`:
/// `cwd`, a `/`, then `rel`; `None` when `rel` would leave the project.
pub fn workspace_file(cwd: &str, rel: &str) -> (r: Option<String>)
    ensures
        r is None <==> escapes(rel@),
        r matches Some(full) ==> full@ == cwd@ + seq!['/'] + rel@,
{
    let rc = chars_of(rel);
    if rc.len() > 0 && rc[0] == '/' {
        return None;
    }
    if has_parent_segment(&rc) {
        return None;
    }
    let mut full = cwd.to_owned();
    full.append("/");
    full.append(rel);
    proof {
        reveal_strlit("/");
    }
    assert(full@ =~= cwd@ + seq!['/'] + rel@);
    Some(full)
}

} // verus!
