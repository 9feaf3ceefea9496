//! An existing local clone of the base source tree, used to speed up
//! initialisation.

use vstd::prelude::*;

verus! {

/// An existing clone of the base source repository.
#[derive(Debug)]
pub struct LocalDecompRepo {
    path: String,
}

impl View for LocalDecompRepo {
    type V = Seq<char>;

    closed spec fn view(&self) -> Seq<char> {
        self.path@
    }
}

impl LocalDecompRepo {
    /// Wraps an already-located clone path. The caller is responsible for
    /// having checked that the path is a directory.
    pub fn from_path(path: String) -> (r: LocalDecompRepo)
        ensures
            r@ == path@,
    {
        LocalDecompRepo { path }
    }

    /// The clone's path.
    pub fn path(&self) -> (r: &str)
        ensures
            r@ == self@,
    {
        self.path.as_str()
    }
}

} // verus!
