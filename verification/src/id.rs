//! Validated package identifiers.
//!
//! A package identifier is a lowercase, hyphen-separated string of 3 to 64
//! characters. It identifies a package uniquely within a registry, orders
//! totally (for deterministic iteration), and round-trips through text.

use vstd::prelude::*;

verus! {

/// Highest number of characters an identifier may have.
pub const MAX_LEN: usize = 64;

/// Lowest number of characters an identifier may have.
pub const MIN_LEN: usize = 3;

/// A character an identifier may contain: a lowercase ASCII letter, an ASCII
/// digit, or a hyphen.
pub open spec fn is_kebab_char(c: char) -> bool {
    ||| 'a' as u32 <= c as u32 && c as u32 <= 'z' as u32
    ||| '0' as u32 <= c as u32 && c as u32 <= '9' as u32
    ||| c == '-'
}

/// The shape an identifier must have, lengths aside: every character drawn
/// from the kebab alphabet, no leading or trailing hyphen, and no two
/// hyphens in a row.
pub open spec fn kebab_shape(s: Seq<char>) -> bool {
    &&& forall|i: int| 0 <= i < s.len() ==> is_kebab_char(#[trigger] s[i])
    &&& s.len() > 0 ==> s[0] != '-' && s[s.len() - 1] != '-'
    &&& forall|i: int| 0 <= i < s.len() - 1 ==> !(#[trigger] s[i] == '-' && s[i + 1] == '-')
}

/// A valid identifier: kebab shape and between 3 and 64 characters.
pub open spec fn valid_id(s: Seq<char>) -> bool {
    MIN_LEN <= s.len() <= MAX_LEN && kebab_shape(s)
}

/// Package ID.
/// No two packages in the same registry can have the same ID.
#[derive(Debug)]
pub struct Id {
    text: String,
}

/// Errors that can occur when validating a package ID.
#[derive(Debug)]
pub enum Error {
    /// ID is not in lower kebab-case.
    NotKebabCase,
    /// ID is longer than 64 characters.
    TooLong,
    /// ID is too short, or empty. IDs must be at least 3 characters long.
    TooShort,
}

impl View for Id {
    type V = Seq<char>;

    closed spec fn view(&self) -> Seq<char> {
        self.text@
    }
}

impl Clone for Id {
    fn clone(&self) -> (res: Self)
        ensures
            res@ == self@,
    {
        Id { text: self.text.clone() }
    }
}

impl PartialEq for Id {
    fn eq(&self, other: &Self) -> (r: bool)
        ensures
            r == (self@ == other@),
    {
        self.text.eq(&other.text)
    }
}

impl vstd::std_specs::cmp::PartialEqSpecImpl for Id {
    open spec fn obeys_eq_spec() -> bool {
        true
    }

    open spec fn eq_spec(&self, other: &Self) -> bool {
        self@ == other@
    }
}

/// Whether every character of `s` is drawn from the kebab alphabet.
fn all_kebab_chars(s: &str) -> (r: bool)
    ensures
        r == forall|i: int| 0 <= i < s@.len() ==> is_kebab_char(#[trigger] s@[i]),
{
    let n = s.unicode_len();
    let mut i: usize = 0;
    while i < n
        invariant
            i <= n,
            n == s@.len(),
            forall|j: int| 0 <= j < i ==> is_kebab_char(#[trigger] s@[j]),
        decreases n - i,
    {
        let c = s.get_char(i);
        let u = c as u32;
        let lower = 'a' as u32 <= u && u <= 'z' as u32;
        let digit = '0' as u32 <= u && u <= '9' as u32;
        if !(lower || digit || c == '-') {
            return false;
        }
        i = i + 1;
    }
    true
}

/// Whether `s` contains two hyphens in a row.
fn has_double_hyphen(s: &str) -> (r: bool)
    ensures
        r == exists|i: int| 0 <= i < s@.len() - 1 && #[trigger] s@[i] == '-' && s@[i + 1] == '-',
{
    let n = s.unicode_len();
    if n < 2 {
        return false;
    }
    let mut i: usize = 0;
    while i < n - 1
        invariant
            i <= n - 1,
            n == s@.len(),
            2 <= n,
            forall|j: int| 0 <= j < i ==> !(#[trigger] s@[j] == '-' && s@[j + 1] == '-'),
        decreases n - i,
    {
        if s.get_char(i) == '-' && s.get_char(i + 1) == '-' {
            return true;
        }
        i = i + 1;
    }
    false
}

impl Id {
    /// Whether this identifier is well formed.
    pub open spec fn wf(self) -> bool {
        valid_id(self@)
    }

    /// Validates `s` and wraps it as an identifier.
    ///
    /// Fails with `TooShort` when `s` has fewer than 3 characters, with
    /// `NotKebabCase` when it is not in lower kebab-case, and with `TooLong`
    /// when a kebab-case `s` has more than 64 characters.
    pub fn from_str(s: &str) -> (r: Result<Id, Error>)
        ensures
            match r {
                Ok(id) => valid_id(s@) && id@ == s@,
                Err(Error::TooShort) => s@.len() < MIN_LEN,
                Err(Error::NotKebabCase) => s@.len() >= MIN_LEN && !kebab_shape(s@),
                Err(Error::TooLong) => kebab_shape(s@) && s@.len() > MAX_LEN,
            },
    {
        let n = s.unicode_len();
        if n < MIN_LEN {
            return Err(Error::TooShort);
        }
        if !all_kebab_chars(s) {
            return Err(Error::NotKebabCase);
        }
        if s.get_char(0) == '-' || s.get_char(n - 1) == '-' {
            return Err(Error::NotKebabCase);
        }
        if has_double_hyphen(s) {
            return Err(Error::NotKebabCase);
        }
        if n > MAX_LEN {
            return Err(Error::TooLong);
        }
        Ok(Id { text: s.to_owned() })
    }

    /// The identifier's text.
    pub fn as_str(&self) -> (r: &str)
        ensures
            r@ == self@,
    {
        self.text.as_str()
    }

    /// The identifier's text, as an owned string.
    pub fn to_text(&self) -> (r: String)
        ensures
            r@ == self@,
    {
        self.text.clone()
    }
}

} // verus!
