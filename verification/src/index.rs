//! Results of spatial index queries.

use vstd::prelude::*;

verus! {

/// The keys that a spatial query found, in the order the index produced them.
#[derive(Debug, Clone, PartialEq)]
pub struct QueryResult<K> {
    pub keys: Vec<K>,
}

impl<K> QueryResult<K> {
    /// Wraps the found keys.
    pub fn new(keys: Vec<K>) -> (r: Self)
        ensures
            r.keys@ == keys@,
    {
        QueryResult { keys }
    }

    /// The found keys.
    pub fn into_keys(self) -> (r: Vec<K>)
        ensures
            r@ == self.keys@,
    {
        self.keys
    }
}

} // verus!
