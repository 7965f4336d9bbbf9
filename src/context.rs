//! The active project root, owned by whoever runs searches.

use vstd::prelude::*;

verus! {

/// The project against which searches and relative paths are resolved.
pub struct ProjectContext {
    root: String,
}

impl View for ProjectContext {
    type V = Seq<char>;

    closed spec fn view(&self) -> Seq<char> {
        self.root@
    }
}

impl ProjectContext {
    /// A context whose root is `root`.
    pub fn new(root: String) -> (r: ProjectContext)
        ensures
            r@ == root@,
    {
        ProjectContext { root }
    }

    /// The current root.
    pub fn get(&self) -> (r: String)
        ensures
            r@ == self@,
    {
        self.root.clone()
    }

    /// Makes `root` the current root, unconditionally: it is not checked to
    /// exist.
    pub fn set(&mut self, root: String)
        ensures
            final(self)@ == root@,
    {
        self.root = root;
    }
}

/// Reading the root right after setting it gives back exactly what was set:
/// if `ctx` is the context after `set(root)` and `got` what `get` then
/// returned, `got` is `root`.
pub proof fn lemma_get_after_set(ctx: ProjectContext, root: Seq<char>, got: Seq<char>)
    requires
        ctx@ == root,
        got == ctx@,
    ensures
        got == root,
{
}

} // verus!
