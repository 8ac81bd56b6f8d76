//! A deterministic stand-in for a language model.

use vstd::prelude::*;

verus! {

/// A provider that returns a fixed, pre-baked response. For tests and offline
/// demonstration of the verification gate.
pub struct MockProvider {
    response: String,
}

impl MockProvider {
    /// The response this mock gives.
    pub closed spec fn response_text(&self) -> Seq<char> {
        self.response@
    }

    /// Create a mock that always returns `response`.
    pub fn new(response: String) -> (r: Self)
        ensures
            r.response_text() == response@,
    {
        MockProvider { response }
    }

    /// The completion this mock gives to any prompt.
    pub fn reply(&self) -> (r: String)
        ensures
            r@ == self.response_text(),
    {
        self.response.clone()
    }
}

} // verus!
