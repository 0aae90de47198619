use vstd::prelude::*;

verus! {

/// A stored account of a site: a moderator, or a third-party visitor
/// recorded under its outside id.
#[derive(Debug, Clone)]
pub struct User {
    pub id: i64,
    pub site: String,
    pub username: String,
    pub name: String,
    pub password: Option<String>,
    pub password_salt: Option<String>,
    pub moderator: bool,
    pub sid: Option<String>,
    pub third_party_id: Option<String>,
    pub avatar: Option<String>,
}

} // verus!
