use crate::api::encoding::{base64_of, encode_base64};
use crate::api::Error;
use vstd::prelude::*;

verus! {

/// The stored configuration of a site, with its display theme.
#[derive(Debug, Clone)]
pub struct Config {
    pub site: String,
    pub secret: Vec<u8>,
    pub private: bool,
    pub anonymous_comments: bool,
    pub moderated: bool,
    pub comments_per_page: i64,
    pub replies_per_comment: i64,
    pub minutes_to_edit: i64,
    pub theme: String,
}

impl Config {
    /// The secret as base64 text.
    pub fn secret(&self) -> (r: String)
        ensures
            r@ == base64_of(self.secret@),
    {
        encode_base64(self.secret.as_slice())
    }
}

/// A site's own configuration where it has one, else the default one; a
/// store without a default is an error.
pub fn find_or_default(found: Option<Config>, fallback: Option<Config>) -> (r: Result<Config, Error>)
    ensures
        r == match (found, fallback) {
            (Some(c), _) => Ok::<Config, Error>(c),
            (None, Some(d)) => Ok(d),
            (None, None) => Err(Error::NotFound),
        },
{
    if let Some(c) = found {
        return Ok(c);
    }
    if let Some(d) = fallback {
        return Ok(d);
    }
    Err(Error::NotFound)
}

} // verus!
