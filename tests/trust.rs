use besedka::api::comments::{
    authorize_posting, check_body, ensure_modifiable, get_markdown, list_comments, post_comment,
    prepare_comment, CommentData,
};
use besedka::api::{
    authenticate, generate_random_token, require_moderator, user_from_claims, verify_read_permission, Base64,
    Error, Identity, Session, SignedUser, User,
};
use besedka::cli::{file_argument, valid_file};
use besedka::db::comments::{approve, count_new_comment, ids_are_unique, root_comments, Comment, Visibility};
use besedka::db::configs::{find_or_default, Config};
use besedka::db::moderators::Moderator;
use besedka::db::pages::Page;
use besedka::db::sites::Site;

fn site(name: &str) -> Site {
    Site {
        site: name.to_string(),
        secret: b"topsecret".to_vec(),
        private: false,
        anonymous: true,
        moderated: false,
        comments_per_page: 10,
        replies_per_comment: 5,
        minutes_to_edit: 3,
    }
}

fn page(site: &str) -> Page {
    Page { id: 1, site: site.to_string(), path: "/post".to_string(), locked: false, comments_count: 0 }
}

fn sign(secret: &[u8], blob: &[u8]) -> Vec<u8> {
    let key = ring::hmac::Key::new(ring::hmac::HMAC_SHA256, secret);
    ring::hmac::sign(&key, blob).as_ref().to_vec()
}

fn user(moderator: bool, op: bool) -> Option<User> {
    Some(User { name: "Ann".to_string(), moderator, op, avatar: None })
}

fn stored(id: i64, created_at: i64, token: Vec<u8>) -> Comment {
    Comment {
        id,
        page_id: 1,
        parent_id: None,
        avatar: None,
        name: "x".to_string(),
        html_body: "<p>x</p>".to_string(),
        body: "x".to_string(),
        reviewed: false,
        moderator: false,
        op: false,
        created_at,
        updated_at: created_at,
        token: Base64(token),
    }
}

#[test]
fn signed_blob_is_verified_over_its_exact_bytes() {
    let s = site("a.example");
    let blob = br#"{"name":"Bob","moderator":true}"#.to_vec();
    let tag = sign(&s.secret, &blob);
    let r = authenticate(&s, Session::Absent, &Some(Base64(blob.clone())), &Some(Base64(tag)));
    match r {
        Ok(Identity::Verified(bytes)) => assert_eq!(bytes, blob),
        _ => panic!("expected a verified identity"),
    }
}

#[test]
fn tampered_signature_or_blob_fails() {
    let s = site("a.example");
    let blob = br#"{"name":"Bob"}"#.to_vec();
    let tag = sign(&s.secret, &blob);
    let mut bad_tag = tag.clone();
    bad_tag[5] ^= 1;
    let r = authenticate(&s, Session::Absent, &Some(Base64(blob.clone())), &Some(Base64(bad_tag)));
    assert!(matches!(r, Err(Error::BadRequest(_))));
    let mut bad_blob = blob.clone();
    bad_blob[3] ^= 1;
    let r = authenticate(&s, Session::Absent, &Some(Base64(bad_blob)), &Some(Base64(tag)));
    assert!(matches!(r, Err(Error::BadRequest(_))));
}

#[test]
fn blob_without_signature_fails_closed() {
    let s = site("a.example");
    let r = authenticate(&s, Session::Absent, &Some(Base64(b"{}".to_vec())), &None);
    assert!(matches!(r, Err(Error::BadRequest("Cannot verify user object"))));
    let r = authenticate(&s, Session::Absent, &None, &Some(Base64(vec![1, 2])));
    assert!(matches!(r, Ok(Identity::Anonymous)));
}

#[test]
fn moderator_session_wins_over_blob() {
    let s = site("a.example");
    let m = Moderator { name: "root".to_string(), password: "h".to_string(), op: true, avatar: None, sid: None };
    let r = authenticate(&s, Session::Found(m), &Some(Base64(b"{}".to_vec())), &Some(Base64(vec![0])));
    match r {
        Ok(Identity::Moderator(u)) => {
            assert_eq!(u.name, "root");
            assert!(u.moderator);
            assert!(u.op);
        }
        _ => panic!("expected the moderator"),
    }
    let r = authenticate(&s, Session::Unknown, &None, &None);
    assert!(matches!(r, Err(Error::Unauthorized)));
}

#[test]
fn claims_default_and_name_requirement() {
    let mut s = site("a.example");
    let claims = SignedUser { name: None, avatar: None, moderator: None, op: Some(true) };
    let u = user_from_claims(&s, claims.clone()).unwrap();
    assert_eq!(u.name, "Anonymous");
    assert!(!u.moderator);
    assert!(u.op);
    s.anonymous = false;
    assert_eq!(
        user_from_claims(&s, claims).err(),
        Some(Error::UnprocessableEntity("User name is required for non-anonymous sites"))
    );
    let named = SignedUser { name: Some("Eve".to_string()), avatar: None, moderator: Some(true), op: None };
    let u = user_from_claims(&s, named).unwrap();
    assert_eq!(u.name, "Eve");
    assert!(u.moderator);
}

#[test]
fn read_and_post_permissions() {
    let mut s = site("a.example");
    let p = page("a.example");
    assert_eq!(verify_read_permission(&s, &None, Some(&p)), Ok(()));
    assert_eq!(
        verify_read_permission(&s, &None, Some(&page("b.example"))),
        Err(Error::BadRequest("Wrong site requested"))
    );
    s.private = true;
    assert_eq!(verify_read_permission(&s, &None, None), Err(Error::Unauthorized));
    assert_eq!(verify_read_permission(&s, &user(false, false), None), Ok(()));
    s.private = false;
    s.anonymous = false;
    assert_eq!(authorize_posting(&s, &None, &p), Err(Error::Unauthorized));
    assert_eq!(authorize_posting(&s, &user(false, false), &p), Ok(()));
    let mut locked = page("a.example");
    locked.locked = true;
    assert_eq!(authorize_posting(&s, &user(true, false), &locked), Err(Error::Forbidden));
    assert_eq!(require_moderator(&None), Err(Error::Unauthorized));
    assert_eq!(require_moderator(&user(false, true)), Err(Error::Forbidden));
    assert_eq!(require_moderator(&user(true, false)), Ok(()));
}

#[test]
fn edit_window_and_exact_token() {
    let token = vec![7u8; 48];
    let c = stored(1, 1_000_000, token.clone());
    let t = Some(Base64(token.clone()));
    // 2:59 after posting
    assert_eq!(ensure_modifiable(&None, &t, &c, 1_000_000 + 179_000, 3), Ok(()));
    // exactly at the end of the window
    assert_eq!(ensure_modifiable(&None, &t, &c, 1_000_000 + 180_000, 3), Ok(()));
    // 3:01 after posting
    assert_eq!(ensure_modifiable(&None, &t, &c, 1_000_000 + 181_000, 3), Err(Error::Forbidden));
    let mut off = token.clone();
    off[47] = 8;
    assert_eq!(ensure_modifiable(&None, &Some(Base64(off)), &c, 1_000_001, 3), Err(Error::Forbidden));
    assert_eq!(ensure_modifiable(&None, &Some(Base64(token[..47].to_vec())), &c, 1_000_001, 3), Err(Error::Forbidden));
    assert_eq!(ensure_modifiable(&None, &None, &c, 1_000_001, 3), Err(Error::Forbidden));
    assert_eq!(ensure_modifiable(&user(false, true), &None, &c, 1_000_001, 3), Err(Error::Forbidden));
    assert_eq!(ensure_modifiable(&user(true, false), &None, &c, 9_000_000_000, 3), Ok(()));
}

#[test]
fn approving_twice_counts_once() {
    let mut p = page("a.example");
    p.comments_count = 4;
    let mut c = stored(1, 0, vec![1]);
    approve(&mut p, &mut c);
    assert!(c.reviewed);
    assert_eq!(p.comments_count, 5);
    approve(&mut p, &mut c);
    assert!(c.reviewed);
    assert_eq!(p.comments_count, 5);
    count_new_comment(&mut p, true);
    count_new_comment(&mut p, false);
    assert_eq!(p.comments_count, 6);
}

#[test]
fn markdown_is_rendered_with_gfm() {
    assert_eq!(get_markdown("**a**").unwrap(), "<p><strong>a</strong></p>");
    assert_eq!(get_markdown("~~gone~~").unwrap(), "<p><del>gone</del></p>");
}

#[test]
fn blank_bodies_and_names() {
    assert_eq!(check_body("  \n\t"), Err(Error::UnprocessableEntity("Comment can't be blank")));
    assert_eq!(check_body(" hi "), Ok(()));
    let s = site("a.example");
    let p = page("a.example");
    let data = CommentData { body: "hi".to_string(), name: Some("   ".to_string()), token: None };
    let c = prepare_comment(&s, &None, &p, None, &data, "<p>hi</p>".to_string()).unwrap();
    assert_eq!(c.name, "Anonymous");
    assert_eq!(c.token.0.len(), 48);
    assert_eq!(c.html_body, "<p>hi</p>");
    assert!(c.reviewed);
    let data = CommentData { body: "hi".to_string(), name: Some("Zed".to_string()), token: Some(Base64(vec![3; 4])) };
    let c = prepare_comment(&s, &None, &p, Some(9), &data, "<p>hi</p>".to_string()).unwrap();
    assert_eq!(c.name, "Zed");
    assert_eq!(c.token.0, vec![3; 4]);
    assert_eq!(c.parent_id, Some(9));
}

#[test]
fn creation_policy_on_moderated_sites() {
    let mut s = site("a.example");
    s.moderated = true;
    let p = page("a.example");
    let data = CommentData { body: "hello".to_string(), name: None, token: None };
    assert!(!post_comment(&s, &None, &p, None, &data).unwrap().reviewed);
    assert!(post_comment(&s, &user(false, true), &p, None, &data).unwrap().reviewed);
    assert!(post_comment(&s, &user(true, false), &p, None, &data).unwrap().reviewed);
    let c = post_comment(&s, &user(false, false), &p, None, &data).unwrap();
    assert!(!c.reviewed);
    assert_eq!(c.name, "Ann");
    assert_eq!(c.html_body, "<p>hello</p>");
}

#[test]
fn moderated_post_appears_after_approval() {
    let mut s = site("a.example");
    s.moderated = true;
    let mut p = page("a.example");
    let data = CommentData { body: "hello".to_string(), name: None, token: None };
    let new = post_comment(&s, &None, &p, None, &data).unwrap();
    assert!(!new.reviewed);
    let mut c = stored(1, 1000, new.token.0.clone());
    c.reviewed = new.reviewed;
    c.body = new.body.clone();
    let mut rows = vec![c];

    let before = list_comments(&s, &None, None, p.id, &rows, None).unwrap();
    assert_eq!(before.total, 0);
    assert!(before.comments.is_empty());
    // the author still sees it with the token
    let own = list_comments(&s, &None, Some(Base64(new.token.0.clone())), p.id, &rows, None).unwrap();
    assert_eq!(own.comments.len(), 1);
    assert!(own.comments[0].owned);

    approve(&mut p, &mut rows[0]);
    assert_eq!(p.comments_count, 1);
    let after = list_comments(&s, &None, None, p.id, &rows, None).unwrap();
    assert_eq!(after.total, 1);
    assert_eq!(after.comments[0].comment.body, "hello");
    let (_, page_rows) = root_comments(&rows, p.id, 5, &Visibility::Reviewed, None);
    assert_eq!(page_rows.len(), 1);
}

#[test]
fn private_site_listing_needs_a_caller() {
    let mut s = site("a.example");
    s.private = true;
    let rows: Vec<Comment> = vec![];
    assert_eq!(list_comments(&s, &None, None, 1, &rows, None).err(), Some(Error::Unauthorized));
    assert!(list_comments(&s, &user(false, false), None, 1, &rows, None).is_ok());
}

#[test]
fn site_secret_is_base64() {
    let mut s = site("a.example");
    s.secret = vec![1, 2, 3];
    assert_eq!(s.secret(), "AQID");
}

#[test]
fn random_tokens_are_48_bytes() {
    let a = generate_random_token();
    let b = generate_random_token();
    assert_eq!(a.0.len(), 48);
    assert_ne!(a.0, b.0);
}

#[test]
fn file_arguments() {
    assert_eq!(valid_file("/no/such/file/here"), Err(Error::NotFound));
    assert_eq!(file_argument("a.pem", true), Ok("a.pem".to_string()));
    assert_eq!(file_argument("a.pem", false), Err(Error::NotFound));
}

#[test]
fn config_falls_back_to_default() {
    let cfg = |site: &str| Config {
        site: site.to_string(),
        secret: vec![1, 2, 3],
        private: false,
        anonymous_comments: true,
        moderated: false,
        comments_per_page: 42,
        replies_per_comment: 5,
        minutes_to_edit: 3,
        theme: "light".to_string(),
    };
    assert_eq!(find_or_default(Some(cfg("a")), Some(cfg("default"))).unwrap().site, "a");
    assert_eq!(find_or_default(None, Some(cfg("default"))).unwrap().site, "default");
    assert_eq!(find_or_default(None, None).err(), Some(Error::NotFound));
    assert_eq!(cfg("a").secret(), "AQID");
}

#[test]
fn duplicate_ids_are_detected() {
    let a = stored(1, 0, vec![1]);
    let b = stored(2, 0, vec![1]);
    let c = stored(1, 5, vec![2]);
    assert!(ids_are_unique(&vec![a.clone(), b.clone()]));
    assert!(!ids_are_unique(&vec![a, b, c]));
    assert!(ids_are_unique(&vec![]));
}

#[test]
fn moderator_session_and_caller() {
    let mut m = Moderator { name: "root".to_string(), password: "h".to_string(), op: false, avatar: Some("a.png".to_string()), sid: None };
    m.set_sid(Base64(vec![5; 3]));
    assert_eq!(m.sid.as_ref().map(|s| s.0.clone()), Some(vec![5; 3]));
    let u = User::from_moderator(m);
    assert!(u.moderator);
    assert!(!u.op);
    assert_eq!(u.avatar, Some("a.png".to_string()));
    let v = besedka::api::visibility_for(&Some(u), Some(Base64(vec![1])));
    assert!(matches!(v, Visibility::All));
    let v = besedka::api::visibility_for(&user(false, true), Some(Base64(vec![1])));
    assert!(matches!(v, Visibility::ReviewedOrOwned(_)));
    let v = besedka::api::visibility_for(&user(false, true), None);
    assert!(matches!(v, Visibility::Reviewed));
}
