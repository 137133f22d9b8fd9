//! A string that should not be shown or logged, such as a mnemonic phrase.

use vstd::prelude::*;

verus! {

/// A secret string.  Reading it out is an explicit act.
pub struct ConfidentialString {
    inner: String,
}

impl View for ConfidentialString {
    type V = Seq<char>;

    closed spec fn view(&self) -> Seq<char> {
        self.inner@
    }
}

impl ConfidentialString {
    /// Wraps a secret string.
    pub fn from_string(inner: String) -> (r: Self)
        ensures r@ == inner@,
    {
        ConfidentialString { inner }
    }

    /// Reads the secret out.
    pub fn expose(&self) -> (r: &str)
        ensures r@ == self@,
    {
        self.inner.as_str()
    }
}

} // verus!
