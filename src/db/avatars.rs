use vstd::prelude::*;

verus! {

/// A stored avatar image and the SHA-256 digest it is found by.
#[derive(Debug, Clone)]
pub struct Avatar {
    pub id: i64,
    pub data: String,
    pub sha: Vec<u8>,
}

} // verus!
