//! The base ROM location: the unmodified binary asset the build and the
//! distribution keying both need.

use vstd::prelude::*;

verus! {

/// A located base ROM.
#[derive(Debug)]
pub struct Baserom {
    path: String,
}

impl View for Baserom {
    type V = Seq<char>;

    closed spec fn view(&self) -> Seq<char> {
        self.path@
    }
}

impl Baserom {
    /// Wraps an already-located base ROM path. The caller is responsible
    /// for having checked that the file exists.
    pub fn from_path(path: String) -> (r: Baserom)
        ensures
            r@ == path@,
    {
        Baserom { path }
    }

    /// The base ROM's path.
    pub fn path(&self) -> (r: &str)
        ensures
            r@ == self@,
    {
        self.path.as_str()
    }
}

} // verus!
