use crate::api::Base64;
use vstd::prelude::*;

verus! {

/// A moderator account: its password hash and, once logged in, its session
/// id.
#[derive(Debug, Clone)]
pub struct Moderator {
    pub name: String,
    pub password: String,
    pub op: bool,
    pub avatar: Option<String>,
    pub sid: Option<Base64>,
}

impl Moderator {
    /// Records the session id of a login.
    pub fn set_sid(&mut self, sid: Base64)
        ensures
            final(self).sid == Some(sid),
            final(self).name == old(self).name,
            final(self).password == old(self).password,
            final(self).op == old(self).op,
            final(self).avatar == old(self).avatar,
    {
        self.sid = Some(sid);
    }
}

} // verus!
