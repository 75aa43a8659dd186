//! Ownership of a temporary object URL.
use vstd::prelude::*;

verus! {

/// Holds an object URL for as long as it must stay valid; the embedding
/// application revokes it once the guard is done with.
pub struct UrlGuard {
    url: String,
}

impl UrlGuard {
    /// The URL held.
    pub closed spec fn spec_url(&self) -> Seq<char> {
        self.url@
    }

    /// Takes charge of `url`.
    pub fn new(url: &str) -> (r: Self)
        ensures
            r.spec_url() == url@,
    {
        UrlGuard { url: url.to_owned() }
    }

    /// The URL held.
    pub fn url(&self) -> (r: &str)
        ensures
            r@ == self.spec_url(),
    {
        self.url.as_str()
    }
}

} // verus!
