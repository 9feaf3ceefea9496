//! Validated package names.

use vstd::prelude::*;

use heck::ToKebabCase;

verus! {

/// A valid package name: a non-empty single line without forward slashes.
pub open spec fn valid_name(s: Seq<char>) -> bool {
    &&& s.len() > 0
    &&& forall|i: int| 0 <= i < s.len() ==> #[trigger] s[i] != '/' && s[i] != '\n'
}

/// A validated package name.
#[derive(Debug)]
pub struct Name {
    text: String,
}

/// Errors that can occur when validating a package name.
#[derive(Debug)]
pub enum Error {
    /// Package name is empty.
    Empty,
    /// Package name contains a forward slash.
    ContainsSlash,
    /// Package name is multiple lines (contains a newline character).
    ContainsNewline,
}

impl View for Name {
    type V = Seq<char>;

    closed spec fn view(&self) -> Seq<char> {
        self.text@
    }
}

impl Clone for Name {
    fn clone(&self) -> (res: Self)
        ensures
            res@ == self@,
    {
        Name { text: self.text.clone() }
    }
}

/// What a package name is rewritten to when a lowercase hyphen-separated
/// form is needed (directory names, generated identifiers). The rewriting is
/// done by the heck crate and depends on the characters alone.
pub uninterp spec fn kebab_of(s: Seq<char>) -> Seq<char>;

/// Relies on heck's `ToKebabCase` for `str`: the result is a pure function
/// of the input characters, named `kebab_of` here.
#[verifier::external_body]
fn kebab_case_of(s: &str) -> (r: String)
    ensures
        r@ == kebab_of(s@),
{
    s.to_kebab_case()
}

/// Whether `c` occurs in `s`.
fn contains_char(s: &str, c: char) -> (r: bool)
    ensures
        r == exists|i: int| 0 <= i < s@.len() && #[trigger] s@[i] == c,
{
    let n = s.unicode_len();
    let mut i: usize = 0;
    while i < n
        invariant
            i <= n,
            n == s@.len(),
            forall|j: int| 0 <= j < i ==> #[trigger] s@[j] != c,
        decreases n - i,
    {
        if s.get_char(i) == c {
            return true;
        }
        i = i + 1;
    }
    false
}

impl Name {
    /// Whether this name is well formed.
    pub open spec fn wf(self) -> bool {
        valid_name(self@)
    }

    /// Creates a new name from a string.
    ///
    /// Fails with `Empty` on an empty string, `ContainsSlash` when a `/`
    /// occurs, and `ContainsNewline` when a newline occurs.
    pub fn new(name: String) -> (r: Result<Name, Error>)
        ensures
            match r {
                Ok(n) => valid_name(name@) && n@ == name@,
                Err(Error::Empty) => name@.len() == 0,
                Err(Error::ContainsSlash) => exists|i: int|
                    0 <= i < name@.len() && #[trigger] name@[i] == '/',
                Err(Error::ContainsNewline) => exists|i: int|
                    0 <= i < name@.len() && #[trigger] name@[i] == '\n',
            },
    {
        if name.as_str().unicode_len() == 0 {
            return Err(Error::Empty);
        }
        if contains_char(name.as_str(), '/') {
            return Err(Error::ContainsSlash);
        }
        if contains_char(name.as_str(), '\n') {
            return Err(Error::ContainsNewline);
        }
        Ok(Name { text: name })
    }

    /// Returns the name as kebab-case.
    pub fn as_kebab_case(&self) -> (r: String)
        ensures
            r@ == kebab_of(self@),
    {
        kebab_case_of(self.text.as_str())
    }

    /// The name's text.
    pub fn as_str(&self) -> (r: &str)
        ensures
            r@ == self@,
    {
        self.text.as_str()
    }
}

/// The identifier text derived from a package name: its kebab-case form,
/// cut to 64 characters when longer, or prefixed with `merlon-` when shorter
/// than 3 characters.
pub open spec fn id_candidate(name: Seq<char>) -> Seq<char> {
    let k = kebab_of(name);
    if k.len() >= 3 {
        if k.len() > 64 {
            k.take(64)
        } else {
            k
        }
    } else {
        "merlon-"@ + k
    }
}

impl crate::id::Id {
    /// Creates a new ID from a package name, by validating the name's
    /// kebab-case form (cut to length, or prefixed when too short).
    ///
    /// Fails when that candidate text is not a valid identifier, for
    /// example when the name has no letters or digits at all.
    pub fn generate_for_package_name(name: &Name) -> (r: Result<crate::id::Id, crate::id::Error>)
        ensures
            match r {
                Ok(id) => id@ == id_candidate(name@) && crate::id::valid_id(id_candidate(name@)),
                Err(_) => !crate::id::valid_id(id_candidate(name@)),
            },
    {
        let k = name.as_kebab_case();
        let n = k.as_str().unicode_len();
        let candidate: String = if n >= 3 {
            if n > 64 {
                String::from_str(k.as_str().substring_char(0, 64))
            } else {
                k
            }
        } else {
            let mut s = String::from_str("merlon-");
            s.append(k.as_str());
            s
        };
        crate::id::Id::from_str(candidate.as_str())
    }
}

} // verus!
