//! The mod directory: the root of a checked-out mod and the well-known
//! paths inside it.

use vstd::prelude::*;

verus! {

/// A mod directory.
#[derive(Debug)]
pub struct ModDir {
    path: String,
}

impl View for ModDir {
    type V = Seq<char>;

    closed spec fn view(&self) -> Seq<char> {
        self.path@
    }
}

impl ModDir {
    /// Wraps an already-validated mod directory path. The caller is
    /// responsible for having checked the directory's layout.
    pub fn from_path(path: String) -> (r: ModDir)
        ensures
            r@ == path@,
    {
        ModDir { path }
    }

    /// The mod directory's path.
    pub fn path(&self) -> (r: &str)
        ensures
            r@ == self@,
    {
        self.path.as_str()
    }

    /// The base source tree checkout inside the mod directory.
    pub fn submodule_dir(&self) -> (r: String)
        ensures
            r@ == self@ + "/papermario"@,
    {
        let mut s = self.path.clone();
        s.append("/papermario");
        s
    }

    /// The base ROM inside the base source tree checkout.
    pub fn us_baserom_path(&self) -> (r: String)
        ensures
            r@ == self@ + "/papermario"@ + "/ver/us/baserom.z64"@,
    {
        let mut s = self.submodule_dir();
        s.append("/ver/us/baserom.z64");
        s
    }

    /// The manifest file of the mod.
    pub fn config_path(&self) -> (r: String)
        ensures
            r@ == self@ + "/merlon.toml"@,
    {
        let mut s = self.path.clone();
        s.append("/merlon.toml");
        s
    }
}

} // verus!
