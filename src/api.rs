//! Request-level logic: identities, cursors and read permissions.
pub mod comments;
pub mod cursor;
pub mod encoding;
pub mod error;

pub use cursor::Cursor;
pub use error::Error;

use crate::db::comments::{CommentView, Visibility};
use crate::db::moderators::Moderator;
use crate::db::pages::Page;
use crate::db::sites::Site;
use ring::rand::SecureRandom;
use vstd::prelude::*;

verus! {

/// Opaque bytes that travel as base64 text: ownership tokens, session ids,
/// signatures and signed identity blobs.
#[derive(Debug, Clone)]
pub struct Base64(pub Vec<u8>);

impl View for Base64 {
    type V = Seq<u8>;

    open spec fn view(&self) -> Seq<u8> {
        self.0@
    }
}

/// The HMAC-SHA256 tag of a message under a key.
pub uninterp spec fn hmac_sha256(key: Seq<u8>, msg: Seq<u8>) -> Seq<u8>;

/// Relies on `ring::hmac::verify` with a `ring::hmac::HMAC_SHA256` key made
/// by `ring::hmac::Key::new`: it is `Ok` exactly when the tag equals the MAC
/// of the data, compared in constant time.
#[verifier::external_body]
fn hmac_sha256_matches(secret: &[u8], data: &[u8], tag: &[u8]) -> (r: bool)
    ensures
        r == (tag@ == hmac_sha256(secret@, data@)),
{
    let key = ring::hmac::Key::new(ring::hmac::HMAC_SHA256, secret);
    ring::hmac::verify(&key, data, tag).is_ok()
}

/// Relies on `ring::rand::SystemRandom::fill`: fills the buffer from the
/// operating system's generator. Nothing is promised of the bytes.
#[verifier::external_body]
fn fill_random(buf: &mut [u8; 48]) {
    let _ = ring::rand::SystemRandom::new().fill(buf);
}

/// Whether `tag` is the site secret's MAC of exactly the bytes `blob`.
pub open spec fn authentic(secret: Seq<u8>, blob: Seq<u8>, tag: Seq<u8>) -> bool {
    tag == hmac_sha256(secret, blob)
}

/// A signature that differs from an authentic one, in a single byte or in
/// any other way, does not authenticate the blob; and an accepted blob is
/// authentic for exactly the bytes that were signed.
pub proof fn lemma_tampered_signature_rejected(
    secret: Seq<u8>,
    blob: Seq<u8>,
    tag: Seq<u8>,
    tampered: Seq<u8>,
)
    requires
        authentic(secret, blob, tag),
        tampered != tag,
    ensures
        !authentic(secret, blob, tampered),
{
}

/// A fresh random credential of 48 bytes: an ownership token or a session id.
pub fn generate_random_token() -> (r: Base64)
    ensures
        r@.len() == 48,
{
    let mut sid = [0u8; 48];
    fill_random(&mut sid);
    let mut out: Vec<u8> = Vec::new();
    let mut i: usize = 0;
    while i < 48
        invariant
            i <= 48,
            out@.len() == i,
        decreases 48 - i,
    {
        out.push(sid[i]);
        i += 1;
    }
    Base64(out)
}

/// The claims of a third-party identity blob, once its signature checked out.
#[derive(Debug, Clone)]
pub struct SignedUser {
    pub name: Option<String>,
    pub avatar: Option<String>,
    pub moderator: Option<bool>,
    pub op: Option<bool>,
}

/// An authenticated caller: a logged-in moderator or a verified visitor.
/// An anonymous caller has none.
#[derive(Debug, Clone)]
pub struct User {
    pub name: String,
    pub moderator: bool,
    pub op: bool,
    pub avatar: Option<String>,
}

impl User {
    /// The caller that a moderator's session stands for.
    pub fn from_moderator(moderator: Moderator) -> (r: Self)
        ensures
            r.name == moderator.name,
            r.moderator,
            r.op == moderator.op,
            r.avatar == moderator.avatar,
    {
        User { name: moderator.name, moderator: true, op: moderator.op, avatar: moderator.avatar }
    }

    /// The caller that verified claims stand for: unnamed is "Anonymous", and
    /// missing moderator or op claims are false.
    pub fn from_signed_user(user: SignedUser) -> (r: Self)
        ensures
            r.name@ == match user.name {
                Some(n) => n@,
                None => "Anonymous"@,
            },
            r.moderator == (user.moderator == Some(true)),
            r.op == (user.op == Some(true)),
            r.avatar == user.avatar,
    {
        let name = match user.name {
            Some(n) => n,
            None => "Anonymous".to_owned(),
        };
        let moderator = match user.moderator {
            Some(m) => m,
            None => false,
        };
        let op = match user.op {
            Some(o) => o,
            None => false,
        };
        User { name, moderator, op, avatar: user.avatar }
    }
}

/// What the store found for a request's session id.
#[derive(Debug, Clone)]
pub enum Session {
    /// The request carries no session id.
    Absent,
    /// The session id belongs to no moderator.
    Unknown,
    Found(Moderator),
}

/// Who a request comes from, before a verified blob is read.
#[derive(Debug, Clone)]
pub enum Identity {
    Moderator(User),
    /// A third-party identity whose blob carries the site's signature; the
    /// bytes are exactly those that were verified.
    Verified(Vec<u8>),
    Anonymous,
}

/// Resolves who a request comes from. A moderator's session wins over any
/// identity blob. Otherwise a blob must carry the site secret's HMAC of its
/// exact bytes; a blob without a signature, or with a wrong one, fails the
/// request rather than falling back to anonymous. The blob is not read here:
/// its claims are read only once this has returned it as verified.
pub fn authenticate(
    site: &Site,
    session: Session,
    user: &Option<Base64>,
    signature: &Option<Base64>,
) -> (r: Result<Identity, Error>)
    ensures
        session matches Session::Found(m) ==> (r matches Ok(Identity::Moderator(u)) && u.name
            == m.name && u.moderator && u.op == m.op && u.avatar == m.avatar),
        session is Unknown ==> r == Err::<Identity, Error>(Error::Unauthorized),
        session is Absent ==> match (user, signature) {
            (None, _) => r matches Ok(Identity::Anonymous),
            (Some(_), None) => r == Err::<Identity, Error>(
                Error::BadRequest("Cannot verify user object"),
            ),
            (Some(b), Some(t)) => if authentic(site.secret@, b@, t@) {
                r matches Ok(Identity::Verified(v)) && v@ == b@
            } else {
                r == Err::<Identity, Error>(Error::BadRequest("Cannot verify user object"))
            },
        },
{
    match session {
        Session::Found(m) => {
            return Ok(Identity::Moderator(User::from_moderator(m)));
        },
        Session::Unknown => {
            return Err(Error::Unauthorized);
        },
        Session::Absent => {},
    }
    match user {
        None => Ok(Identity::Anonymous),
        Some(blob) => match signature {
            None => Err(Error::BadRequest("Cannot verify user object")),
            Some(tag) => {
                if hmac_sha256_matches(site.secret.as_slice(), blob.0.as_slice(), tag.0.as_slice()) {
                    Ok(Identity::Verified(crate::db::comments::copy_bytes(&blob.0)))
                } else {
                    Err(Error::BadRequest("Cannot verify user object"))
                }
            },
        },
    }
}

/// The caller that the claims of a verified blob stand for. A site that
/// allows no anonymous posting wants a visible name.
pub fn user_from_claims(site: &Site, claims: SignedUser) -> (r: Result<User, Error>)
    ensures
        !site.anonymous && claims.name is None ==> r == Err::<User, Error>(
            Error::UnprocessableEntity("User name is required for non-anonymous sites"),
        ),
        site.anonymous || claims.name is Some ==> (r matches Ok(u) && u.name@ == match claims.name {
            Some(n) => n@,
            None => "Anonymous"@,
        } && u.moderator == (claims.moderator == Some(true)) && u.op == (claims.op == Some(true))
            && u.avatar == claims.avatar),
{
    if !site.anonymous && claims.name.is_none() {
        return Err(Error::UnprocessableEntity("User name is required for non-anonymous sites"));
    }
    Ok(User::from_signed_user(claims))
}

/// Whether the caller is a moderator.
pub open spec fn is_moderator(user: Option<User>) -> bool {
    match user {
        Some(u) => u.moderator,
        None => false,
    }
}

/// What a caller may read: a moderator everything; anyone else what is
/// reviewed, and with an ownership token also what carries that token.
pub open spec fn visibility_of(moderator: bool, token: Option<Base64>) -> Visibility {
    if moderator {
        Visibility::All
    } else {
        match token {
            Some(t) => Visibility::ReviewedOrOwned(t),
            None => Visibility::Reviewed,
        }
    }
}

/// The visibility that a caller reads under.
pub fn visibility_for(user: &Option<User>, token: Option<Base64>) -> (r: Visibility)
    ensures
        r == visibility_of(is_moderator(*user), token),
{
    let moderator = match user {
        Some(u) => u.moderator,
        None => false,
    };
    if moderator {
        Visibility::All
    } else {
        match token {
            Some(t) => Visibility::ReviewedOrOwned(t),
            None => Visibility::Reviewed,
        }
    }
}

/// Who sees what: a caller who is not a moderator never sees an unreviewed
/// comment of someone else's, and always sees an unreviewed comment of their
/// own when presenting its token; a moderator sees every comment.
pub proof fn lemma_who_sees_what(token: Option<Base64>, c: CommentView)
    ensures
        !c.reviewed && (token is None || token.unwrap()@ != c.token) ==> !crate::db::comments::visible(
            visibility_of(false, token),
            c,
        ),
        (token is Some && token.unwrap()@ == c.token) ==> crate::db::comments::visible(
            visibility_of(false, token),
            c,
        ),
        crate::db::comments::visible(visibility_of(true, token), c),
{
}

/// The outcome of a read permission check.
pub open spec fn read_permission(site: Site, user: Option<User>, page: Option<Page>) -> Result<(), Error> {
    if site.private && user is None {
        Err(Error::Unauthorized)
    } else if page is Some && page.unwrap().site@ != site.site@ {
        Err(Error::BadRequest("Wrong site requested"))
    } else {
        Ok(())
    }
}

/// A private site is read only by authenticated callers, and a page is read
/// only through the site it belongs to.
pub fn verify_read_permission(site: &Site, user: &Option<User>, page: Option<&Page>) -> (r: Result<
    (),
    Error,
>)
    ensures
        r == read_permission(*site, *user, match page {
            Some(p) => Some(*p),
            None => None,
        }),
{
    if site.private && user.is_none() {
        return Err(Error::Unauthorized);
    }
    if let Some(p) = page {
        if p.site != site.site {
            return Err(Error::BadRequest("Wrong site requested"));
        }
    }
    Ok(())
}

/// Fails unless the caller is a moderator: without a caller the request is
/// unauthorized, with another caller it is forbidden.
pub fn require_moderator(user: &Option<User>) -> (r: Result<(), Error>)
    ensures
        r == match user {
            None => Err(Error::Unauthorized),
            Some(u) => if u.moderator {
                Ok(())
            } else {
                Err(Error::Forbidden)
            },
        },
{
    match user {
        None => Err(Error::Unauthorized),
        Some(u) => if !u.moderator {
            Err(Error::Forbidden)
        } else {
            Ok(())
        },
    }
}

} // verus!
