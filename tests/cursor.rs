use besedka::api::{Cursor, Error};

#[test]
fn cursor_encodes_as_base64_json() {
    let c = Cursor { id: 1, created_at: 2 };
    assert_eq!(c.encode(), "eyJpZCI6MSwiY3JlYXRlZF9hdCI6Mn0=");
    assert_eq!(c.to_json(), b"{\"id\":1,\"created_at\":2}".to_vec());
}

#[test]
fn cursor_encodes_negative_and_large_values() {
    let c = Cursor { id: -5, created_at: 1700000000123 };
    assert_eq!(c.encode(), "eyJpZCI6LTUsImNyZWF0ZWRfYXQiOjE3MDAwMDAwMDAxMjN9");
}

#[test]
fn cursor_round_trip() {
    let cases = [
        Cursor { id: 0, created_at: 0 },
        Cursor { id: 42, created_at: 1700000000123 },
        Cursor { id: -1, created_at: -99 },
        Cursor { id: i64::MAX, created_at: i64::MIN },
        Cursor { id: i64::MIN, created_at: i64::MAX },
        Cursor { id: 9, created_at: 10 },
    ];
    for c in cases {
        let decoded = Cursor::decode(&c.encode()).unwrap();
        assert_eq!(decoded, c);
    }
}

#[test]
fn cursor_json_round_trip() {
    let c = Cursor { id: 123456789, created_at: 987654321 };
    assert_eq!(Cursor::from_json(&c.to_json()), Some(c));
}

#[test]
fn cursor_rejects_bad_base64() {
    assert_eq!(Cursor::decode("not base64!"), Err(Error::BadRequest("Invalid cursor")));
    assert_eq!(Cursor::decode(""), Err(Error::BadRequest("Invalid cursor")));
}

#[test]
fn cursor_rejects_non_canonical_json() {
    // leading zeros and a negative zero are not what the encoder writes
    assert_eq!(
        Cursor::decode("eyJpZCI6MDA3LCJjcmVhdGVkX2F0IjoyfQ=="),
        Err(Error::BadRequest("Invalid cursor"))
    );
    assert_eq!(
        Cursor::decode("eyJpZCI6LTAsImNyZWF0ZWRfYXQiOjJ9"),
        Err(Error::BadRequest("Invalid cursor"))
    );
    assert_eq!(Cursor::from_json(&b"{\"id\":1,\"created_at\":2} ".to_vec()), None);
    assert_eq!(Cursor::from_json(&b"{\"id\":1}".to_vec()), None);
    assert_eq!(Cursor::from_json(&b"{\"id\":99999999999999999999,\"created_at\":2}".to_vec()), None);
}

#[test]
fn error_status_codes() {
    assert_eq!(Error::Unauthorized.status_code(), 401);
    assert_eq!(Error::Forbidden.status_code(), 403);
    assert_eq!(Error::NotFound.status_code(), 404);
    assert_eq!(Error::UnprocessableEntity("x").status_code(), 422);
    assert_eq!(Error::Storage.status_code(), 500);
    assert_eq!(Error::Json.status_code(), 400);
    assert_eq!(Error::BadRequest("x").status_code(), 400);
}
