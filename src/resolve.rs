//! Choosing the project root from what a version-control lookup found.

use vstd::prelude::*;

verus! {

/// Why no project root could be found.
#[derive(Debug, Clone, Copy, PartialEq, Eq, Structural)]
pub enum RootError {
    /// No repository encloses the starting path.
    NoRepository,
    /// The repository has no work tree (it is bare).
    NoWorkTree,
    /// The work tree's path is not valid text.
    NotText,
}

/// The root reported when none could be found.
pub open spec fn unknown_root() -> Seq<char> {
    seq!['U', 'n', 'k', 'n', 'o', 'w', 'n']
}

/// The project root to use, given the outcome of looking for the work tree
/// that encloses a starting path: the work tree's path when one was found,
/// else `"Unknown"`, whatever the reason.
pub fn project_root(found: &Result<String, RootError>) -> (r: String)
    ensures
        r@ == match found {
            Ok(dir) => dir@,
            Err(_) => unknown_root(),
        },
{
    match found {
        Ok(dir) => dir.clone(),
        Err(_) => {
            let r = "Unknown".to_owned();
            proof {
                reveal_strlit("Unknown");
                assert(r@ =~= unknown_root());
            }
            r
        },
    }
}

} // verus!
