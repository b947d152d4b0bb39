//! A request address with its parameters.
use vstd::prelude::*;

verus! {

/// An address to query and the parameters to send with it.
pub struct Query {
    pub url: String,
    pub params: Vec<String>,
}

impl Query {
    /// A query of `url` with no parameters.
    pub fn new(url: String) -> (r: Self)
        ensures
            r.url == url,
            r.params@ == Seq::<String>::empty(),
    {
        Query { url, params: Vec::new() }
    }
}

} // verus!
