use besedka::api::comments::{comments_page, unreviewed_queue, CommentsPage};
use besedka::db::pages::Page;
use besedka::api::{visibility_for, Base64, Cursor, User};
use besedka::db::comments::{replies, root_comments, page_replies, unreviewed, Comment, Visibility};

fn comment(id: i64, page_id: i64, parent_id: Option<i64>, at: i64, reviewed: bool, token: u8) -> Comment {
    Comment {
        id,
        page_id,
        parent_id,
        avatar: None,
        name: format!("n{}", id),
        html_body: format!("<p>{}</p>", id),
        body: format!("{}", id),
        reviewed,
        moderator: false,
        op: false,
        created_at: at,
        updated_at: at,
        token: Base64(vec![token; 4]),
    }
}

fn ids(v: &[Comment]) -> Vec<i64> {
    v.iter().map(|c| c.id).collect()
}

fn moderator() -> Option<User> {
    Some(User { name: "mod".to_string(), moderator: true, op: false, avatar: None })
}

#[test]
fn roots_are_newest_first_with_id_tie_break() {
    let rows = vec![
        comment(1, 7, None, 100, true, 1),
        comment(2, 7, None, 100, true, 1),
        comment(3, 7, None, 50, true, 1),
        comment(4, 7, None, 200, true, 1),
        comment(5, 8, None, 300, true, 1),
        comment(6, 7, Some(1), 400, true, 1),
    ];
    let (total, page) = root_comments(&rows, 7, 10, &Visibility::Reviewed, None);
    assert_eq!(total, 4);
    assert_eq!(ids(&page), vec![4, 2, 1, 3]);
}

#[test]
fn paging_with_cursors_matches_one_fetch() {
    let mut rows = vec![];
    for i in 1..=9 {
        // timestamps collide in pairs
        rows.push(comment(i, 1, None, (i / 2) * 10, true, 1));
    }
    let (_, all) = root_comments(&rows, 1, 100, &Visibility::Reviewed, None);
    let mut paged = vec![];
    let mut cursor = None;
    loop {
        let (_, page) = root_comments(&rows, 1, 2, &Visibility::Reviewed, cursor);
        if page.is_empty() {
            break;
        }
        let last = page.last().unwrap();
        cursor = Some(Cursor { id: last.id, created_at: last.created_at });
        paged.extend(ids(&page));
    }
    assert_eq!(paged, ids(&all));
    assert_eq!(paged, vec![9, 8, 7, 6, 5, 4, 3, 2, 1]);
}

#[test]
fn insertions_between_fetches_do_not_shift_pages() {
    let mut rows = vec![
        comment(1, 1, None, 10, true, 1),
        comment(2, 1, None, 20, true, 1),
        comment(3, 1, None, 30, true, 1),
        comment(4, 1, None, 40, true, 1),
    ];
    let (_, first) = root_comments(&rows, 1, 2, &Visibility::Reviewed, None);
    assert_eq!(ids(&first), vec![4, 3]);
    let last = first.last().unwrap();
    let cursor = Some(Cursor { id: last.id, created_at: last.created_at });
    // a newer comment and one that sorts between the remaining ones
    rows.push(comment(5, 1, None, 50, true, 1));
    rows.push(comment(6, 1, None, 15, true, 1));
    let (total, second) = root_comments(&rows, 1, 2, &Visibility::Reviewed, cursor);
    assert_eq!(total, 6);
    assert_eq!(ids(&second), vec![2, 6]);
}

#[test]
fn anonymous_reader_sees_only_reviewed_or_own() {
    let rows = vec![
        comment(1, 1, None, 10, true, 1),
        comment(2, 1, None, 20, false, 2),
        comment(3, 1, None, 30, false, 3),
    ];
    let none = visibility_for(&None, None);
    let (total, page) = root_comments(&rows, 1, 10, &none, None);
    assert_eq!((total, ids(&page)), (1, vec![1]));

    let own = visibility_for(&None, Some(Base64(vec![2; 4])));
    let (total, page) = root_comments(&rows, 1, 10, &own, None);
    assert_eq!((total, ids(&page)), (2, vec![2, 1]));

    // a token one byte off is someone else's
    let off = visibility_for(&None, Some(Base64(vec![2, 2, 2, 3])));
    let (_, page) = root_comments(&rows, 1, 10, &off, None);
    assert_eq!(ids(&page), vec![1]);

    let all = visibility_for(&moderator(), None);
    let (total, page) = root_comments(&rows, 1, 10, &all, None);
    assert_eq!((total, ids(&page)), (3, vec![3, 2, 1]));
}

#[test]
fn replies_are_oldest_first_and_capped_per_thread() {
    let rows = vec![
        comment(1, 1, None, 10, true, 1),
        comment(2, 1, None, 20, true, 1),
        comment(10, 1, Some(1), 30, true, 1),
        comment(11, 1, Some(1), 25, false, 1),
        comment(12, 1, Some(1), 40, true, 1),
        comment(13, 1, Some(1), 35, true, 1),
        comment(20, 1, Some(2), 50, true, 1),
    ];
    let parents = vec![comment(2, 1, None, 20, true, 1), comment(1, 1, None, 10, true, 1)];
    let r = replies(&rows, &Visibility::Reviewed, &parents, 2);
    // the unreviewed reply takes no place in the cap
    assert_eq!(ids(&r), vec![20, 10, 13]);
    let next = page_replies(&rows, 1, 2, &Visibility::Reviewed, Some(Cursor { id: 13, created_at: 35 }));
    assert_eq!(ids(&next), vec![12]);
    let first = page_replies(&rows, 1, 1, &Visibility::All, None);
    assert_eq!(ids(&first), vec![11]);
}

#[test]
fn page_assembles_threads_flags_and_cursor() {
    let mut p1 = comment(3, 1, None, 30, true, 9);
    p1.updated_at = 31;
    let parents = vec![p1, comment(2, 1, None, 20, true, 1), comment(1, 1, None, 10, true, 1)];
    let all_replies = vec![
        comment(10, 1, Some(3), 40, true, 9),
        comment(11, 1, Some(2), 41, true, 1),
        comment(12, 1, Some(3), 42, true, 1),
    ];
    let token = Some(Base64(vec![9; 4]));
    let page: CommentsPage = comments_page(&parents, &all_replies, 3, &token, 2);
    assert_eq!(page.total, 3);
    assert_eq!(page.comments.len(), 2);
    assert_eq!(page.comments[0].comment.id, 3);
    assert!(page.comments[0].owned);
    assert!(page.comments[0].edited);
    assert!(!page.comments[1].owned);
    assert!(!page.comments[1].edited);
    let r0: Vec<i64> = page.comments[0].replies.iter().map(|r| r.comment.id).collect();
    assert_eq!(r0, vec![10, 12]);
    assert!(page.comments[0].replies[0].owned);
    assert!(!page.comments[0].replies[1].owned);
    let r1: Vec<i64> = page.comments[1].replies.iter().map(|r| r.comment.id).collect();
    assert_eq!(r1, vec![11]);
    assert_eq!(page.cursor, Some(Cursor { id: 2, created_at: 20 }.encode()));

    let whole = comments_page(&parents, &all_replies, 3, &None, 3);
    assert_eq!(whole.cursor, None);
    assert_eq!(whole.comments.len(), 3);
    assert!(!whole.comments[0].owned);
}

#[test]
fn moderators_queue_lists_unreviewed() {
    let rows = vec![
        comment(1, 1, None, 10, true, 1),
        comment(2, 1, None, 20, false, 1),
        comment(3, 2, Some(9), 30, false, 1),
    ];
    assert_eq!(ids(&unreviewed(&rows)), vec![2, 3]);
}

#[test]
fn moderators_queue_links_pages() {
    let mut edited = comment(2, 5, None, 20, false, 7);
    edited.updated_at = 25;
    let pending = vec![edited, comment(3, 6, None, 30, false, 1)];
    let pages = vec![Page { id: 5, site: "s".to_string(), path: "/a".to_string(), locked: false, comments_count: 0 }];
    let q = unreviewed_queue(&pending, &pages, &Some(Base64(vec![7; 4])));
    assert_eq!(q.len(), 2);
    assert_eq!(q[0].link, Some("/a".to_string()));
    assert!(q[0].comment.owned);
    assert!(q[0].comment.edited);
    assert_eq!(q[1].link, None);
    assert!(!q[1].comment.owned);
    assert!(!q[1].comment.edited);
}
