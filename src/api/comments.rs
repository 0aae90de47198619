//! Shaping a page of comments for a reader, and deciding who may post,
//! edit or delete.
use crate::api::cursor::cursor_json;
use crate::api::encoding::{base64_of, bytes_eq};
use crate::api::{
    generate_random_token, is_moderator, read_permission, verify_read_permission, visibility_for, visibility_of,
    Base64, Cursor, Error, User,
};
use crate::db::comments::{
    cursor_key, ids_unique, listing, listing_size, opt_text, replies, reply_groups, root_comments, rows_view,
    Comment, CommentView,
};
use crate::db::pages::Page;
use crate::db::sites::Site;
use vstd::prelude::*;

verus! {

/// A comment as a reader gets it, with what the reader's token and its
/// timestamps say of it.
#[derive(Debug, Clone)]
pub struct OwnedComment {
    pub comment: Comment,
    /// The reader presented this comment's ownership token.
    pub owned: bool,
    /// The comment was changed after it was posted.
    pub edited: bool,
}

/// A root comment as a reader gets it, with its replies.
#[derive(Debug, Clone)]
pub struct CommentWithReplies {
    pub comment: Comment,
    pub owned: bool,
    pub edited: bool,
    pub replies: Vec<OwnedComment>,
}

/// One page of a thread index.
#[derive(Debug, Clone)]
pub struct CommentsPage {
    /// How many roots the reader may see on the page.
    pub total: usize,
    /// Where the next page starts, when there is one.
    pub cursor: Option<String>,
    pub comments: Vec<CommentWithReplies>,
}

/// Whether the reader's token is the comment's own, byte for byte.
pub open spec fn owns(token: Option<Base64>, c: CommentView) -> bool {
    match token {
        Some(t) => t@ == c.token,
        None => false,
    }
}

pub open spec fn is_edited(c: CommentView) -> bool {
    c.created_at != c.updated_at
}

/// Whether `n` shows comment `c` to a reader holding `token`.
pub open spec fn shows(n: OwnedComment, c: CommentView, token: Option<Base64>) -> bool {
    &&& n.comment@ == c
    &&& n.owned == owns(token, c)
    &&& n.edited == is_edited(c)
}

/// The replies among `rows` to comment `parent`, in the order of `rows`.
pub open spec fn replies_to(rows: Seq<CommentView>, parent: i64) -> Seq<CommentView>
    decreases rows.len(),
{
    if rows.len() == 0 {
        Seq::empty()
    } else {
        let p = replies_to(rows.drop_last(), parent);
        if rows.last().parent_id == Some(parent) {
            p.push(rows.last())
        } else {
            p
        }
    }
}

/// Whether the thread node `n` shows root `c` and its replies among
/// `replies`, to a reader holding `token`.
pub open spec fn shows_thread(
    n: CommentWithReplies,
    c: CommentView,
    replies: Seq<CommentView>,
    token: Option<Base64>,
) -> bool {
    let rs = replies_to(replies, c.id);
    &&& n.comment@ == c
    &&& n.owned == owns(token, c)
    &&& n.edited == is_edited(c)
    &&& n.replies@.len() == rs.len()
    &&& forall|k: int| 0 <= k < rs.len() ==> shows(#[trigger] n.replies@[k], rs[k], token)
}

fn owns_exec(token: &Option<Base64>, c: &Comment) -> (r: bool)
    ensures
        r == owns(*token, c@),
{
    match token {
        None => false,
        Some(t) => bytes_eq(&t.0, &c.token.0),
    }
}

/// A comment as a reader holding `token` gets it.
pub fn annotate(c: &Comment, token: &Option<Base64>) -> (r: OwnedComment)
    ensures
        shows(r, c@, *token),
{
    OwnedComment { comment: c.copy(), owned: owns_exec(token, c), edited: c.created_at != c.updated_at }
}

fn thread_replies(all_replies: &Vec<Comment>, parent: i64, token: &Option<Base64>) -> (r: Vec<
    OwnedComment,
>)
    ensures
        r@.len() == replies_to(crate::db::comments::rows_view(all_replies@), parent).len(),
        forall|k: int|
            0 <= k < r@.len() ==> shows(
                #[trigger] r@[k],
                replies_to(crate::db::comments::rows_view(all_replies@), parent)[k],
                *token,
            ),
{
    let ghost rv = crate::db::comments::rows_view(all_replies@);
    let mut out: Vec<OwnedComment> = Vec::new();
    let mut j: usize = 0;
    assert(rv.subrange(0, 0) =~= Seq::<CommentView>::empty());
    while j < all_replies.len()
        invariant
            j <= all_replies.len(),
            rv == crate::db::comments::rows_view(all_replies@),
            out@.len() == replies_to(rv.subrange(0, j as int), parent).len(),
            forall|k: int|
                0 <= k < out@.len() ==> shows(
                    #[trigger] out@[k],
                    replies_to(rv.subrange(0, j as int), parent)[k],
                    *token,
                ),
        decreases all_replies.len() - j,
    {
        let ghost prev = replies_to(rv.subrange(0, j as int), parent);
        proof {
            assert(rv.subrange(0, j + 1).drop_last() =~= rv.subrange(0, j as int));
            assert(rv.subrange(0, j + 1).last() == all_replies@[j as int]@);
        }
        let r = &all_replies[j];
        let is_reply = match r.parent_id {
            Some(p) => p == parent,
            None => false,
        };
        if is_reply {
            out.push(annotate(r, token));
            assert(replies_to(rv.subrange(0, j + 1), parent) == prev.push(r@));
        }
        j += 1;
    }
    assert(rv.subrange(0, all_replies.len() as int) =~= rv);
    out
}

/// The next-page cursor of a page of roots: the key of the last root shown,
/// given only when the fetch found more than a page.
pub open spec fn next_cursor_of(parents: Seq<CommentView>, per_page: nat) -> Option<Seq<char>> {
    if per_page < parents.len() && per_page > 0 {
        let last = parents[per_page - 1];
        Some(base64_of(cursor_json(Cursor { id: last.id, created_at: last.created_at })))
    } else {
        None
    }
}

/// Assembles a page of the thread index from a fetch of roots, newest first
/// and one more than a page when more follow, and the replies to them. Each
/// of the first `per_page` roots gets its replies from `all_replies`, in
/// their order there, and each comment is marked owned when `token` is its
/// own and edited when it changed after it was posted.
pub fn comments_page(
    parents: &Vec<Comment>,
    all_replies: &Vec<Comment>,
    total: usize,
    token: &Option<Base64>,
    per_page: usize,
) -> (r: CommentsPage)
    ensures
        r.total == total,
        r.comments@.len() == if parents@.len() < per_page {
            parents@.len()
        } else {
            per_page as nat
        },
        forall|i: int|
            0 <= i < r.comments@.len() ==> shows_thread(
                #[trigger] r.comments@[i],
                parents@[i]@,
                crate::db::comments::rows_view(all_replies@),
                *token,
            ),
        match r.cursor {
            Some(s) => next_cursor_of(crate::db::comments::rows_view(parents@), per_page as nat)
                == Some(s@),
            None => next_cursor_of(crate::db::comments::rows_view(parents@), per_page as nat)
                is None,
        },
{
    let mut comments: Vec<CommentWithReplies> = Vec::new();
    let mut i: usize = 0;
    while i < parents.len() && i < per_page
        invariant
            i <= parents.len(),
            i <= per_page,
            comments@.len() == i,
            forall|k: int|
                0 <= k < i ==> shows_thread(
                    #[trigger] comments@[k],
                    parents@[k]@,
                    crate::db::comments::rows_view(all_replies@),
                    *token,
                ),
        decreases parents.len() - i,
    {
        let parent = &parents[i];
        let replies = thread_replies(all_replies, parent.id, token);
        comments.push(
            CommentWithReplies {
                comment: parent.copy(),
                owned: owns_exec(token, parent),
                edited: parent.created_at != parent.updated_at,
                replies,
            },
        );
        i += 1;
    }
    let cursor = if per_page < parents.len() && per_page > 0 {
        let last = &parents[per_page - 1];
        assert(crate::db::comments::rows_view(parents@)[per_page - 1] == last@);
        Some(Cursor { id: last.id, created_at: last.created_at }.encode())
    } else {
        None
    };
    CommentsPage { total, cursor, comments }
}

/// A comment in a moderator's queue, with the path of its page.
#[derive(Debug, Clone)]
pub struct UnreviewedComment {
    pub comment: OwnedComment,
    /// The path of the page the comment is on, where that page is known.
    pub link: Option<String>,
}

/// The path of the page with id `page_id` among `pages`, the first one if
/// several share the id.
pub open spec fn page_path(pages: Seq<Page>, page_id: i64) -> Option<Seq<char>>
    decreases pages.len(),
{
    if pages.len() == 0 {
        None
    } else if pages[0].id == page_id {
        Some(pages[0].path@)
    } else {
        page_path(pages.subrange(1, pages.len() as int), page_id)
    }
}

fn find_path(pages: &Vec<Page>, page_id: i64) -> (r: Option<String>)
    ensures
        opt_text(r) == page_path(pages@, page_id),
{
    let mut i: usize = 0;
    assert(pages@.subrange(0, pages.len() as int) =~= pages@);
    while i < pages.len()
        invariant
            i <= pages.len(),
            page_path(pages@, page_id) == page_path(pages@.subrange(i as int, pages.len() as int), page_id),
        decreases pages.len() - i,
    {
        let ghost rest = pages@.subrange(i as int, pages.len() as int);
        assert(rest[0] == pages@[i as int]);
        assert(rest.subrange(1, rest.len() as int) =~= pages@.subrange(i + 1, pages.len() as int));
        if pages[i].id == page_id {
            return Some(pages[i].path.clone());
        }
        i += 1;
    }
    assert(pages@.subrange(pages.len() as int, pages.len() as int) =~= Seq::<Page>::empty());
    None
}

/// A moderator's queue: each comment of `pending`, in order, as a reader
/// holding `token` gets it, with the path of its page among `pages`.
pub fn unreviewed_queue(pending: &Vec<Comment>, pages: &Vec<Page>, token: &Option<Base64>) -> (r: Vec<
    UnreviewedComment,
>)
    ensures
        r@.len() == pending@.len(),
        forall|i: int|
            0 <= i < r@.len() ==> shows(#[trigger] r@[i].comment, pending@[i]@, *token) && opt_text(
                r@[i].link,
            ) == page_path(pages@, pending@[i].page_id),
{
    let mut out: Vec<UnreviewedComment> = Vec::new();
    let mut i: usize = 0;
    while i < pending.len()
        invariant
            i <= pending.len(),
            out@.len() == i,
            forall|k: int|
                0 <= k < i ==> shows(#[trigger] out@[k].comment, pending@[k]@, *token) && opt_text(
                    out@[k].link,
                ) == page_path(pages@, pending@[k].page_id),
        decreases pending.len() - i,
    {
        let c = &pending[i];
        out.push(UnreviewedComment { comment: annotate(c, token), link: find_path(pages, c.page_id) });
        i += 1;
    }
    out
}

/// How many roots a page fetch asks for: one more than a page, to learn
/// whether another page follows.
pub open spec fn fetch_size(per_page: u32) -> nat {
    if per_page as int + 1 <= usize::MAX {
        (per_page + 1) as nat
    } else {
        per_page as nat
    }
}

/// The thread index of a page for a reader: permission first, then the
/// roots after `cursor` that the reader may see, newest first, then each
/// root's first replies, oldest first, each thread capped by the site.
/// `rows` are the stored comments of the page.
pub fn list_comments(
    site: &Site,
    user: &Option<User>,
    token: Option<Base64>,
    page_id: i64,
    rows: &Vec<Comment>,
    cursor: Option<Cursor>,
) -> (r: Result<CommentsPage, Error>)
    requires
        ids_unique(rows_view(rows@)),
    ensures
        read_permission(*site, *user, None) is Err ==> r == Err::<CommentsPage, Error>(
            read_permission(*site, *user, None).unwrap_err(),
        ),
        read_permission(*site, *user, None) is Ok ==> (r matches Ok(p) && {
            let v = visibility_of(is_moderator(*user), token);
            let roots = listing(
                rows_view(rows@),
                true,
                page_id,
                v,
                cursor_key(cursor),
                fetch_size(site.comments_per_page),
            );
            let rs = reply_groups(rows_view(rows@), roots, v, site.replies_per_comment as nat);
            &&& p.total == listing_size(rows_view(rows@), true, page_id, v)
            &&& p.comments@.len() == if roots.len() < site.comments_per_page {
                roots.len()
            } else {
                site.comments_per_page as nat
            }
            &&& forall|i: int|
                0 <= i < p.comments@.len() ==> shows_thread(
                    #[trigger] p.comments@[i],
                    roots[i],
                    rs,
                    token,
                )
            &&& match p.cursor {
                Some(s) => next_cursor_of(roots, site.comments_per_page as nat) == Some(s@),
                None => next_cursor_of(roots, site.comments_per_page as nat) is None,
            }
        }),
{
    verify_read_permission(site, user, None)?;
    let per_page = site.comments_per_page as usize;
    let limit: usize = if per_page < usize::MAX {
        per_page + 1
    } else {
        per_page
    };
    let owned = match &token {
        Some(t) => Some(Base64(crate::db::comments::copy_bytes(&t.0))),
        None => None,
    };
    let visibility = visibility_for(user, token);
    let (total, parents) = root_comments(rows, page_id, limit, &visibility, cursor);
    let all_replies = replies(rows, &visibility, &parents, site.replies_per_comment as usize);
    let page = comments_page(&parents, &all_replies, total, &owned, per_page);
    proof {
        assert forall|i: int| 0 <= i < page.comments@.len() implies shows_thread(
            #[trigger] page.comments@[i],
            rows_view(parents@)[i],
            rows_view(all_replies@),
            token,
        ) by {
            assert(rows_view(parents@)[i] == parents@[i]@);
            assert(forall|c: CommentView| owns(owned, c) == owns(token, c));
            let n = page.comments@[i];
            let rs = replies_to(rows_view(all_replies@), n.comment@.id);
            assert forall|k: int| 0 <= k < rs.len() implies shows(#[trigger] n.replies@[k], rs[k], token) by {
                assert(shows(n.replies@[k], rs[k], owned));
            }
        }
    }
    Ok(page)
}

/// The outcome of a posting check.
pub open spec fn posting_permission(site: Site, user: Option<User>, page: Page) -> Result<(), Error> {
    match read_permission(site, user, Some(page)) {
        Err(e) => Err(e),
        Ok(_) => if user is None && !site.anonymous {
            Err(Error::Unauthorized)
        } else if page.locked {
            Err(Error::Forbidden)
        } else {
            Ok(())
        },
    }
}

/// Posting to a page takes read permission on it, a caller where the site
/// allows no anonymous posting, and a page that is not locked.
pub fn authorize_posting(site: &Site, user: &Option<User>, page: &Page) -> (r: Result<(), Error>)
    ensures
        r == posting_permission(*site, *user, *page),
{
    verify_read_permission(site, user, Some(page))?;
    if user.is_none() && !site.anonymous {
        return Err(Error::Unauthorized);
    }
    if page.locked {
        return Err(Error::Forbidden);
    }
    Ok(())
}

/// Whether a change at `now` falls inside the edit window of a comment
/// posted at `created_at`. Times are in milliseconds.
pub open spec fn within_edit_window(created_at: i64, now: i64, minutes_to_edit: i64) -> bool {
    now - created_at <= minutes_to_edit * 60000
}

/// The outcome of a check before an edit or a delete.
pub open spec fn modify_permission(
    user: Option<User>,
    token: Option<Base64>,
    comment: CommentView,
    now: i64,
    minutes_to_edit: i64,
) -> Result<(), Error> {
    if is_moderator(user) {
        Ok(())
    } else if owns(token, comment) && within_edit_window(comment.created_at, now, minutes_to_edit) {
        Ok(())
    } else {
        Err(Error::Forbidden)
    }
}

/// A moderator may always change a comment. Anyone else must present the
/// comment's own token, byte for byte, and be within `minutes_to_edit`
/// minutes of its posting at `now`; anything else is forbidden.
pub fn ensure_modifiable(
    user: &Option<User>,
    token: &Option<Base64>,
    comment: &Comment,
    now: i64,
    minutes_to_edit: i64,
) -> (r: Result<(), Error>)
    ensures
        r == modify_permission(*user, *token, comment@, now, minutes_to_edit),
{
    if let Some(u) = user {
        if u.moderator {
            return Ok(());
        }
    }
    match token {
        None => Err(Error::Forbidden),
        Some(t) => {
            let elapsed: i128 = now as i128 - comment.created_at as i128;
            let window: i128 = minutes_to_edit as i128 * 60000i128;
            if bytes_eq(&t.0, &comment.token.0) && elapsed <= window {
                Ok(())
            } else {
                Err(Error::Forbidden)
            }
        },
    }
}

/// The HTML that GitHub-flavoured markdown renders a text to, or `None`
/// where the renderer refuses the text.
pub uninterp spec fn gfm_html(s: Seq<char>) -> Option<Seq<char>>;

/// Relies on `markdown::to_html_with_options` with `markdown::Options::gfm()`:
/// a function of the text alone, `Err` where the text is refused.
#[verifier::external_body]
fn render_gfm(s: &str) -> (r: Option<String>)
    ensures
        match r {
            Some(h) => gfm_html(s@) == Some(h@),
            None => gfm_html(s@) is None,
        },
{
    markdown::to_html_with_options(s, &markdown::Options::gfm()).ok()
}

/// Renders a comment body; a body the renderer refuses cannot be posted.
pub fn get_markdown(data: &str) -> (r: Result<String, Error>)
    ensures
        match r {
            Ok(h) => gfm_html(data@) == Some(h@),
            Err(e) => gfm_html(data@) is None && e == Error::UnprocessableEntity(
                "Your comment contains invalid markdown",
            ),
        },
{
    match render_gfm(data) {
        Some(h) => Ok(h),
        None => Err(Error::UnprocessableEntity("Your comment contains invalid markdown")),
    }
}

/// A text with its leading and trailing whitespace taken off.
pub uninterp spec fn trimmed(s: Seq<char>) -> Seq<char>;

/// Relies on `str::trim`: the text without leading and trailing Unicode
/// white space; a result is empty exactly when the text is all white space.
#[verifier::external_body]
fn is_blank(s: &str) -> (r: bool)
    ensures
        r == (trimmed(s@).len() == 0),
{
    s.trim().is_empty()
}

/// What a poster sends.
#[derive(Debug, Clone)]
pub struct CommentData {
    pub body: String,
    pub name: Option<String>,
    pub token: Option<Base64>,
}

/// A comment ready to be stored.
#[derive(Debug, Clone)]
pub struct NewComment {
    pub page_id: i64,
    pub parent_id: Option<i64>,
    pub avatar: Option<String>,
    pub name: String,
    pub html_body: String,
    pub body: String,
    pub reviewed: bool,
    pub op: bool,
    pub moderator: bool,
    pub token: Base64,
}

/// A body that is only white space cannot be posted.
pub fn check_body(body: &str) -> (r: Result<(), Error>)
    ensures
        r == if trimmed(body@).len() == 0 {
            Err::<(), Error>(Error::UnprocessableEntity("Comment can't be blank"))
        } else {
            Ok(())
        },
{
    if is_blank(body) {
        Err(Error::UnprocessableEntity("Comment can't be blank"))
    } else {
        Ok(())
    }
}

/// The name a comment is shown under: the caller's, else the one the
/// poster typed, and "Anonymous" where that is missing or blank.
pub open spec fn display_name(user: Option<User>, typed: Option<String>) -> Seq<char> {
    let n = match user {
        Some(u) => u.name@,
        None => match typed {
            Some(t) => t@,
            None => "Anonymous"@,
        },
    };
    if trimmed(n).len() == 0 {
        "Anonymous"@
    } else {
        n
    }
}

/// Whether a new comment is approved as it is stored: on an unmoderated
/// site, or when a moderator or a caller with the op claim writes it.
pub open spec fn approved_on_creation(site: Site, user: Option<User>) -> bool {
    !site.moderated || match user {
        Some(u) => u.op || u.moderator,
        None => false,
    }
}

/// Whether `c` is the comment that a permitted post of `data` stores, its
/// body rendered to `html`.
pub open spec fn is_new_comment(
    c: NewComment,
    site: Site,
    user: Option<User>,
    page: Page,
    parent_id: Option<i64>,
    data: CommentData,
    html: Seq<char>,
) -> bool {
    &&& c.page_id == page.id
    &&& c.parent_id == parent_id
    &&& c.name@ == display_name(user, data.name)
    &&& opt_text(c.avatar) == match user {
        Some(u) => opt_text(u.avatar),
        None => None,
    }
    &&& c.html_body@ == html
    &&& c.body@ == data.body@
    &&& c.reviewed == approved_on_creation(site, user)
    &&& c.op == (user is Some && user.unwrap().op)
    &&& c.moderator == (user is Some && user.unwrap().moderator)
    &&& match data.token {
        Some(t) => c.token@ == t@,
        None => c.token@.len() == 48,
    }
}

/// The comment that a permitted post stores, its body already rendered to
/// `html_body`. A poster without a token gets a fresh one.
pub fn prepare_comment(
    site: &Site,
    user: &Option<User>,
    page: &Page,
    parent_id: Option<i64>,
    data: &CommentData,
    html_body: String,
) -> (r: Result<NewComment, Error>)
    ensures
        trimmed(data.body@).len() == 0 ==> r == Err::<NewComment, Error>(
            Error::UnprocessableEntity("Comment can't be blank"),
        ),
        trimmed(data.body@).len() != 0 ==> match posting_permission(*site, *user, *page) {
            Err(e) => r == Err::<NewComment, Error>(e),
            Ok(_) => r matches Ok(c) && is_new_comment(c, *site, *user, *page, parent_id, *data, html_body@),
        },
{
    check_body(data.body.as_str())?;
    authorize_posting(site, user, page)?;
    let (name, avatar, op, moderator) = match user {
        Some(u) => (u.name.clone(), crate::db::comments::copy_text(&u.avatar), u.op, u.moderator),
        None => {
            let typed = match &data.name {
                Some(n) => n.clone(),
                None => "Anonymous".to_owned(),
            };
            (typed, None, false, false)
        },
    };
    let name = if is_blank(name.as_str()) {
        "Anonymous".to_owned()
    } else {
        name
    };
    let reviewed = !site.moderated || op || moderator;
    let token = match &data.token {
        Some(t) => Base64(crate::db::comments::copy_bytes(&t.0)),
        None => generate_random_token(),
    };
    Ok(
        NewComment {
            page_id: page.id,
            parent_id,
            avatar,
            name,
            html_body,
            body: data.body.clone(),
            reviewed,
            op,
            moderator,
            token,
        },
    )
}

/// Checks and renders a post: the body must not be blank, the caller must
/// be allowed to post to the page, and the body must render.
pub fn post_comment(
    site: &Site,
    user: &Option<User>,
    page: &Page,
    parent_id: Option<i64>,
    data: &CommentData,
) -> (r: Result<NewComment, Error>)
    ensures
        trimmed(data.body@).len() == 0 ==> r == Err::<NewComment, Error>(
            Error::UnprocessableEntity("Comment can't be blank"),
        ),
        trimmed(data.body@).len() != 0 && posting_permission(*site, *user, *page) is Err ==> r
            == Err::<NewComment, Error>(posting_permission(*site, *user, *page).unwrap_err()),
        trimmed(data.body@).len() != 0 && posting_permission(*site, *user, *page) is Ok ==> match r {
            Ok(c) => gfm_html(data.body@) == Some(c.html_body@) && is_new_comment(
                c,
                *site,
                *user,
                *page,
                parent_id,
                *data,
                c.html_body@,
            ),
            Err(e) => gfm_html(data.body@) is None && e == Error::UnprocessableEntity(
                "Your comment contains invalid markdown",
            ),
        },
{
    check_body(data.body.as_str())?;
    authorize_posting(site, user, page)?;
    let html = get_markdown(data.body.as_str())?;
    prepare_comment(site, user, page, parent_id, data, html)
}

} // verus!
