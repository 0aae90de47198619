use crate::api::encoding::{base64_of, encode_base64};
use vstd::prelude::*;

verus! {

/// A registered tenant: its HMAC secret and its reading, posting and
/// moderation policy.
#[derive(Debug, Clone)]
pub struct Site {
    pub site: String,
    pub secret: Vec<u8>,
    /// Reading requires an authenticated caller.
    pub private: bool,
    /// Unauthenticated callers may post.
    pub anonymous: bool,
    /// New comments start unreviewed, unless the author is trusted.
    pub moderated: bool,
    pub comments_per_page: u32,
    pub replies_per_comment: u32,
    /// How long after posting an author may still edit or delete.
    pub minutes_to_edit: i64,
}

impl Site {
    /// The secret as base64 text.
    pub fn secret(&self) -> (r: String)
        ensures
            r@ == base64_of(self.secret@),
    {
        encode_base64(self.secret.as_slice())
    }
}

} // verus!
