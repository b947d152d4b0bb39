//! A mod as a provider describes it.
use vstd::prelude::*;

verus! {

/// A mod: its name, description, version, author and id, with the provider it came from.
pub struct Mod<T> {
    name: String,
    description: String,
    version: String,
    author: String,
    id: String,
    provider: T,
}

} // verus!
