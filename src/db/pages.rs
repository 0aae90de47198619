use vstd::prelude::*;

verus! {

/// A commentable URL of a site, with its lock and its count of reviewed
/// comments.
#[derive(Debug, Clone)]
pub struct Page {
    pub id: i64,
    pub site: String,
    pub path: String,
    /// Blocks new comments and replies.
    pub locked: bool,
    pub comments_count: i64,
}

} // verus!
