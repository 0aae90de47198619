//! Stored comments, the visibility rule, and keyset pagination over the
//! comments of a page.
use crate::api::encoding::bytes_eq;
use crate::api::{Base64, Cursor};
use crate::db::pages::Page;
use vstd::prelude::*;

verus! {

/// A stored comment. A root has no `parent_id`; a reply's `parent_id` names
/// a root of the same page. Times are milliseconds since the Unix epoch.
#[derive(Debug, Clone)]
pub struct Comment {
    pub id: i64,
    pub page_id: i64,
    pub parent_id: Option<i64>,
    pub avatar: Option<String>,
    pub name: String,
    pub html_body: String,
    pub body: String,
    pub reviewed: bool,
    pub moderator: bool,
    pub op: bool,
    pub created_at: i64,
    pub updated_at: i64,
    pub token: Base64,
}

/// What a comment holds, with text as character sequences.
pub struct CommentView {
    pub id: i64,
    pub page_id: i64,
    pub parent_id: Option<i64>,
    pub avatar: Option<Seq<char>>,
    pub name: Seq<char>,
    pub html_body: Seq<char>,
    pub body: Seq<char>,
    pub reviewed: bool,
    pub moderator: bool,
    pub op: bool,
    pub created_at: i64,
    pub updated_at: i64,
    pub token: Seq<u8>,
}

pub open spec fn opt_text(s: Option<String>) -> Option<Seq<char>> {
    match s {
        Some(t) => Some(t@),
        None => None,
    }
}

impl View for Comment {
    type V = CommentView;

    open spec fn view(&self) -> CommentView {
        CommentView {
            id: self.id,
            page_id: self.page_id,
            parent_id: self.parent_id,
            avatar: opt_text(self.avatar),
            name: self.name@,
            html_body: self.html_body@,
            body: self.body@,
            reviewed: self.reviewed,
            moderator: self.moderator,
            op: self.op,
            created_at: self.created_at,
            updated_at: self.updated_at,
            token: self.token@,
        }
    }
}

/// A copy of an optional text.
pub fn copy_text(s: &Option<String>) -> (r: Option<String>)
    ensures
        opt_text(r) == opt_text(*s),
{
    match s {
        Some(t) => Some(t.clone()),
        None => None,
    }
}

/// A copy of a byte string.
pub fn copy_bytes(b: &Vec<u8>) -> (r: Vec<u8>)
    ensures
        r@ == b@,
{
    let mut out: Vec<u8> = Vec::new();
    let mut i: usize = 0;
    while i < b.len()
        invariant
            i <= b.len(),
            out@ == b@.subrange(0, i as int),
        decreases b.len() - i,
    {
        out.push(b[i]);
        i += 1;
        assert(out@ =~= b@.subrange(0, i as int));
    }
    assert(b@.subrange(0, b.len() as int) =~= b@);
    out
}

impl Comment {
    /// A copy of this comment.
    pub fn copy(&self) -> (r: Comment)
        ensures
            r@ == self@,
    {
        Comment {
            id: self.id,
            page_id: self.page_id,
            parent_id: self.parent_id,
            avatar: copy_text(&self.avatar),
            name: self.name.clone(),
            html_body: self.html_body.clone(),
            body: self.body.clone(),
            reviewed: self.reviewed,
            moderator: self.moderator,
            op: self.op,
            created_at: self.created_at,
            updated_at: self.updated_at,
            token: Base64(copy_bytes(&self.token.0)),
        }
    }
}

/// Which stored comments a reader may see.
#[derive(Debug, Clone)]
pub enum Visibility {
    /// Every comment, reviewed or not: what a moderator reads.
    All,
    /// Reviewed comments only.
    Reviewed,
    /// Reviewed comments, and those whose ownership token is this one.
    ReviewedOrOwned(Base64),
}

pub open spec fn visible(v: Visibility, c: CommentView) -> bool {
    match v {
        Visibility::All => true,
        Visibility::Reviewed => c.reviewed,
        Visibility::ReviewedOrOwned(t) => c.reviewed || c.token == t@,
    }
}

/// Whether a reader under `v` may see `c`.
pub fn is_visible(v: &Visibility, c: &Comment) -> (r: bool)
    ensures
        r == visible(*v, c@),
{
    match v {
        Visibility::All => true,
        Visibility::Reviewed => c.reviewed,
        Visibility::ReviewedOrOwned(t) => c.reviewed || bytes_eq(&c.token.0, &t.0),
    }
}

/// The sort key of a comment: `(created_at, id)`.
pub open spec fn key_of(c: CommentView) -> (i64, i64) {
    (c.created_at, c.id)
}

/// The strict order on sort keys: by time, then by id.
pub open spec fn key_lt(a: (i64, i64), b: (i64, i64)) -> bool {
    a.0 < b.0 || (a.0 == b.0 && a.1 < b.1)
}

/// Whether key `a` comes before key `b` in a listing: roots are listed newest
/// first, replies oldest first.
pub open spec fn precedes(roots: bool, a: (i64, i64), b: (i64, i64)) -> bool {
    if roots {
        key_lt(b, a)
    } else {
        key_lt(a, b)
    }
}

/// Whether `c` belongs to a listing: with `roots`, the roots of page `owner`;
/// otherwise the replies to comment `owner`. Only what `v` shows counts.
pub open spec fn in_listing(c: CommentView, roots: bool, owner: i64, v: Visibility) -> bool {
    &&& visible(v, c)
    &&& if roots {
        c.page_id == owner && c.parent_id is None
    } else {
        c.parent_id == Some(owner)
    }
}

/// Whether row `i` belongs to the listing and comes after `bound`.
pub open spec fn eligible(
    rows: Seq<CommentView>,
    roots: bool,
    owner: i64,
    v: Visibility,
    bound: Option<(i64, i64)>,
    i: int,
) -> bool {
    &&& 0 <= i < rows.len()
    &&& in_listing(rows[i], roots, owner, v)
    &&& match bound {
        Some(b) => precedes(roots, b, key_of(rows[i])),
        None => true,
    }
}

/// Whether row `i` is the first eligible row after `bound`.
pub open spec fn is_next(
    rows: Seq<CommentView>,
    roots: bool,
    owner: i64,
    v: Visibility,
    bound: Option<(i64, i64)>,
    i: int,
) -> bool {
    &&& eligible(rows, roots, owner, v, bound, i)
    &&& forall|j: int|
        #![trigger eligible(rows, roots, owner, v, bound, j)]
        eligible(rows, roots, owner, v, bound, j) && j != i ==> precedes(
            roots,
            key_of(rows[i]),
            key_of(rows[j]),
        )
}

/// Ids identify stored comments.
pub open spec fn ids_unique(rows: Seq<CommentView>) -> bool {
    forall|i: int, j: int|
        0 <= i < rows.len() && 0 <= j < rows.len() && i != j ==> #[trigger] rows[i].id
            != #[trigger] rows[j].id
}

/// Whether no two rows share an id, as the store guarantees.
pub fn ids_are_unique(rows: &Vec<Comment>) -> (r: bool)
    ensures
        r == ids_unique(rows_view(rows@)),
{
    let ghost rv = rows_view(rows@);
    let mut i: usize = 0;
    while i < rows.len()
        invariant
            i <= rows.len(),
            rv == rows_view(rows@),
            forall|a: int, b: int|
                0 <= a < i && 0 <= b < rows.len() && a != b ==> #[trigger] rv[a].id != #[trigger] rv[b].id,
        decreases rows.len() - i,
    {
        let mut j: usize = 0;
        while j < rows.len()
            invariant
                i < rows.len(),
                j <= rows.len(),
                rv == rows_view(rows@),
                forall|a: int, b: int|
                    0 <= a < i && 0 <= b < rows.len() && a != b ==> #[trigger] rv[a].id != #[trigger] rv[b].id,
                forall|b: int| 0 <= b < j && b != i ==> rv[i as int].id != #[trigger] rv[b].id,
            decreases rows.len() - j,
        {
            assert(rv[j as int].id == rows@[j as int].id);
            assert(rv[i as int].id == rows@[i as int].id);
            if j != i && rows[j].id == rows[i].id {
                assert(!ids_unique(rv));
                return false;
            }
            j += 1;
        }
        i += 1;
    }
    true
}

/// The first row of the listing after `bound`, if there is one.
pub open spec fn next_row(
    rows: Seq<CommentView>,
    roots: bool,
    owner: i64,
    v: Visibility,
    bound: Option<(i64, i64)>,
) -> Option<CommentView> {
    if exists|i: int| is_next(rows, roots, owner, v, bound, i) {
        Some(rows[choose|i: int| is_next(rows, roots, owner, v, bound, i)])
    } else {
        None
    }
}

/// The first `n` rows of the listing after `bound`, in listing order: each
/// one the first after the one before. This is keyset pagination: a page
/// starts strictly after the key of the last row seen, never at an offset.
pub open spec fn listing(
    rows: Seq<CommentView>,
    roots: bool,
    owner: i64,
    v: Visibility,
    bound: Option<(i64, i64)>,
    n: nat,
) -> Seq<CommentView>
    decreases n,
{
    if n == 0 {
        Seq::empty()
    } else {
        let p = listing(rows, roots, owner, v, bound, (n - 1) as nat);
        if p.len() < n - 1 {
            p
        } else {
            let b = if n == 1 {
                bound
            } else {
                Some(key_of(p.last()))
            };
            match next_row(rows, roots, owner, v, b) {
                Some(c) => p.push(c),
                None => p,
            }
        }
    }
}

/// The number of rows in a listing, whatever the bound.
pub open spec fn listing_size(rows: Seq<CommentView>, roots: bool, owner: i64, v: Visibility) -> nat
    decreases rows.len(),
{
    if rows.len() == 0 {
        0
    } else {
        listing_size(rows.drop_last(), roots, owner, v) + if in_listing(rows.last(), roots, owner, v) {
            1nat
        } else {
            0nat
        }
    }
}

/// The key a cursor stands for.
pub open spec fn cursor_key(c: Option<Cursor>) -> Option<(i64, i64)> {
    match c {
        Some(k) => Some((k.created_at, k.id)),
        None => None,
    }
}

/// The replies to each of `parents` in turn, each group capped at `limit`.
pub open spec fn reply_groups(
    rows: Seq<CommentView>,
    parents: Seq<CommentView>,
    v: Visibility,
    limit: nat,
) -> Seq<CommentView>
    decreases parents.len(),
{
    if parents.len() == 0 {
        Seq::empty()
    } else {
        reply_groups(rows, parents.drop_last(), v, limit) + listing(
            rows,
            false,
            parents.last().id,
            v,
            None,
            limit,
        )
    }
}

pub open spec fn rows_view(rows: Seq<Comment>) -> Seq<CommentView> {
    rows.map_values(|c: Comment| c@)
}

/// Whether `a` precedes `b` in a listing, on concrete keys.
fn precedes_exec(roots: bool, a_at: i64, a_id: i64, b_at: i64, b_id: i64) -> (r: bool)
    ensures
        r == precedes(roots, (a_at, a_id), (b_at, b_id)),
{
    if roots {
        b_at < a_at || (b_at == a_at && b_id < a_id)
    } else {
        a_at < b_at || (a_at == b_at && a_id < b_id)
    }
}

/// Whether a row belongs to a listing.
fn in_listing_exec(c: &Comment, roots: bool, owner: i64, v: &Visibility) -> (r: bool)
    ensures
        r == in_listing(c@, roots, owner, *v),
{
    let scoped = if roots {
        c.page_id == owner && c.parent_id.is_none()
    } else {
        match c.parent_id {
            Some(p) => p == owner,
            None => false,
        }
    };
    scoped && is_visible(v, c)
}

/// The index of the first row of the listing after `bound`.
fn find_next(
    rows: &Vec<Comment>,
    roots: bool,
    owner: i64,
    v: &Visibility,
    bound: Option<(i64, i64)>,
) -> (r: Option<usize>)
    requires
        ids_unique(rows_view(rows@)),
    ensures
        match r {
            Some(i) => is_next(rows_view(rows@), roots, owner, *v, bound, i as int),
            None => forall|j: int| !eligible(rows_view(rows@), roots, owner, *v, bound, j),
        },
        next_row(rows_view(rows@), roots, owner, *v, bound) == match r {
            Some(i) => Some(rows@[i as int]@),
            None => None::<CommentView>,
        },
{
    let ghost rv = rows_view(rows@);
    let mut best: Option<usize> = None;
    let mut i: usize = 0;
    while i < rows.len()
        invariant
            i <= rows.len(),
            rv == rows_view(rows@),
            ids_unique(rv),
            match best {
                Some(k) => {
                    &&& k < i
                    &&& eligible(rv, roots, owner, *v, bound, k as int)
                    &&& forall|j: int|
                        #![trigger eligible(rv, roots, owner, *v, bound, j)]
                        0 <= j < i && eligible(rv, roots, owner, *v, bound, j) && j != k
                            ==> precedes(roots, key_of(rv[k as int]), key_of(rv[j]))
                },
                None => forall|j: int|
                    #![trigger eligible(rv, roots, owner, *v, bound, j)]
                    0 <= j < i ==> !eligible(rv, roots, owner, *v, bound, j),
            },
        decreases rows.len() - i,
    {
        let c = &rows[i];
        assert(rv[i as int] == c@);
        let after = match bound {
            Some((b_at, b_id)) => precedes_exec(roots, b_at, b_id, c.created_at, c.id),
            None => true,
        };
        if after && in_listing_exec(c, roots, owner, v) {
            match best {
                None => {
                    best = Some(i);
                },
                Some(k) => {
                    let bk = &rows[k];
                    assert(rv[k as int] == bk@);
                    if precedes_exec(roots, c.created_at, c.id, bk.created_at, bk.id) {
                        best = Some(i);
                    } else {
                        assert(rv[k as int].id != rv[i as int].id);
                    }
                },
            }
        }
        i += 1;
    }
    proof {
        match best {
            Some(k) => {
                assert(is_next(rv, roots, owner, *v, bound, k as int));
                let c = choose|c: int| is_next(rv, roots, owner, *v, bound, c);
                if c != k {
                    assert(precedes(roots, key_of(rv[k as int]), key_of(rv[c])));
                    assert(precedes(roots, key_of(rv[c]), key_of(rv[k as int])));
                }
            },
            None => {
                assert(!exists|c: int| is_next(rv, roots, owner, *v, bound, c));
            },
        }
    }
    best
}

/// The first `limit` rows of a listing after `bound`.
fn take_listing(
    rows: &Vec<Comment>,
    roots: bool,
    owner: i64,
    v: &Visibility,
    bound: Option<(i64, i64)>,
    limit: usize,
) -> (r: Vec<Comment>)
    requires
        ids_unique(rows_view(rows@)),
    ensures
        rows_view(r@) == listing(rows_view(rows@), roots, owner, *v, bound, limit as nat),
{
    let ghost rv = rows_view(rows@);
    let mut out: Vec<Comment> = Vec::new();
    let mut at: Option<(i64, i64)> = bound;
    let mut done = false;
    assert(rows_view(out@) =~= listing(rv, roots, owner, *v, bound, 0));
    while out.len() < limit && !done
        invariant
            out.len() <= limit,
            rv == rows_view(rows@),
            ids_unique(rv),
            rows_view(out@) == listing(rv, roots, owner, *v, bound, out.len() as nat),
            at == if out.len() == 0 {
                bound
            } else {
                Some(key_of(rows_view(out@).last()))
            },
            done ==> forall|n: nat|
                n >= out.len() ==> listing(rv, roots, owner, *v, bound, n) == rows_view(out@),
        decreases limit - out.len(), if done {
            0int
        } else {
            1int
        },
    {
        match find_next(rows, roots, owner, v, at) {
            None => {
                proof {
                    assert forall|n: nat| n >= out.len() implies listing(
                        rv,
                        roots,
                        owner,
                        *v,
                        bound,
                        n,
                    ) == rows_view(out@) by {
                        lemma_listing_stops(rv, roots, owner, *v, bound, out.len() as nat, n);
                    }
                }
                done = true;
            },
            Some(i) => {
                let c = rows[i].copy();
                let ghost before = out@;
                out.push(c);
                proof {
                    assert(rows_view(out@) =~= rows_view(before).push(rv[i as int]));
                    assert(rows_view(out@).last() == rv[i as int]);
                }
                at = Some((rows[i].created_at, rows[i].id));
            },
        }
    }
    if done {
        assert(listing(rv, roots, owner, *v, bound, limit as nat) == rows_view(out@));
    }
    out
}

/// Once a listing stops short, it stays that length.
proof fn lemma_listing_stops(
    rv: Seq<CommentView>,
    roots: bool,
    owner: i64,
    v: Visibility,
    bound: Option<(i64, i64)>,
    k: nat,
    n: nat,
)
    requires
        n >= k,
        listing(rv, roots, owner, v, bound, k).len() == k,
        next_row(
            rv,
            roots,
            owner,
            v,
            if k == 0 {
                bound
            } else {
                Some(key_of(listing(rv, roots, owner, v, bound, k).last()))
            },
        ) is None,
    ensures
        listing(rv, roots, owner, v, bound, n) == listing(rv, roots, owner, v, bound, k),
    decreases n,
{
    if n > k {
        lemma_listing_stops(rv, roots, owner, v, bound, k, (n - 1) as nat);
    }
}

proof fn lemma_listing_len(
    rv: Seq<CommentView>,
    roots: bool,
    owner: i64,
    v: Visibility,
    bound: Option<(i64, i64)>,
    n: nat,
)
    ensures
        listing(rv, roots, owner, v, bound, n).len() <= n,
    decreases n,
{
    if n > 0 {
        lemma_listing_len(rv, roots, owner, v, bound, (n - 1) as nat);
    }
}

/// Every row of a listing belongs to it and comes after the bound, and each
/// row comes strictly after the one before: a page holds no row twice, and
/// a page fetched after a cursor holds nothing at or before it.
pub proof fn lemma_listing_ordered(
    rows: Seq<CommentView>,
    roots: bool,
    owner: i64,
    v: Visibility,
    bound: Option<(i64, i64)>,
    n: nat,
)
    ensures
        forall|i: int|
            0 <= i < listing(rows, roots, owner, v, bound, n).len() ==> {
                let c = #[trigger] listing(rows, roots, owner, v, bound, n)[i];
                &&& rows.contains(c)
                &&& in_listing(c, roots, owner, v)
                &&& match bound {
                    Some(b) => precedes(roots, b, key_of(c)),
                    None => true,
                }
            },
        forall|i: int, j: int|
            0 <= i < j < listing(rows, roots, owner, v, bound, n).len() ==> precedes(
                roots,
                key_of(#[trigger] listing(rows, roots, owner, v, bound, n)[i]),
                key_of(#[trigger] listing(rows, roots, owner, v, bound, n)[j]),
            ),
    decreases n,
{
    if n > 0 {
        let p = listing(rows, roots, owner, v, bound, (n - 1) as nat);
        lemma_listing_ordered(rows, roots, owner, v, bound, (n - 1) as nat);
        lemma_listing_len(rows, roots, owner, v, bound, (n - 1) as nat);
        if p.len() == n - 1 {
            let b = if n == 1 {
                bound
            } else {
                Some(key_of(p.last()))
            };
            if exists|i: int| is_next(rows, roots, owner, v, b, i) {
                let k = choose|i: int| is_next(rows, roots, owner, v, b, i);
                let c = rows[k];
                assert(rows.contains(c));
                let l = listing(rows, roots, owner, v, bound, n);
                assert(l == p.push(c));
                if n > 1 {
                    assert(p.last() == p[p.len() - 1]);
                }
            }
        }
    }
}

/// No row is skipped: every row of the listing's scope after `bound` that
/// does not come after the last row returned is in the listing, and when the
/// listing came back shorter than asked, every such row is in it.
pub proof fn lemma_listing_complete(
    rows: Seq<CommentView>,
    roots: bool,
    owner: i64,
    v: Visibility,
    bound: Option<(i64, i64)>,
    n: nat,
)
    requires
        ids_unique(rows),
    ensures
        forall|j: int|
            #![trigger eligible(rows, roots, owner, v, bound, j)]
            eligible(rows, roots, owner, v, bound, j) && listing(rows, roots, owner, v, bound, n).len()
                < n ==> listing(rows, roots, owner, v, bound, n).contains(rows[j]),
        forall|j: int|
            #![trigger eligible(rows, roots, owner, v, bound, j)]
            eligible(rows, roots, owner, v, bound, j) && listing(rows, roots, owner, v, bound, n).len()
                > 0 && !precedes(
                roots,
                key_of(listing(rows, roots, owner, v, bound, n).last()),
                key_of(rows[j]),
            ) ==> listing(rows, roots, owner, v, bound, n).contains(rows[j]),
    decreases n,
{
    if n > 0 {
        let p = listing(rows, roots, owner, v, bound, (n - 1) as nat);
        let l = listing(rows, roots, owner, v, bound, n);
        lemma_listing_complete(rows, roots, owner, v, bound, (n - 1) as nat);
        lemma_listing_len(rows, roots, owner, v, bound, (n - 1) as nat);
        lemma_listing_ordered(rows, roots, owner, v, bound, (n - 1) as nat);
        if p.len() == n - 1 {
            let b = if n == 1 {
                bound
            } else {
                Some(key_of(p.last()))
            };
            assert forall|j: int|
                #![trigger eligible(rows, roots, owner, v, bound, j)]
                eligible(rows, roots, owner, v, bound, j) && (n == 1 || precedes(
                    roots,
                    key_of(p.last()),
                    key_of(rows[j]),
                )) implies eligible(rows, roots, owner, v, b, j) by {
                if n > 1 {
                    assert(p.last() == p[p.len() - 1]);
                    assert(precedes(roots, key_of(p.last()), key_of(rows[j])));
                }
            }
            if exists|i: int| is_next(rows, roots, owner, v, b, i) {
                let k = choose|i: int| is_next(rows, roots, owner, v, b, i);
                let c = rows[k];
                assert(l == p.push(c));
                assert(l.last() == c);
                assert forall|j: int|
                    #![trigger eligible(rows, roots, owner, v, bound, j)]
                    eligible(rows, roots, owner, v, bound, j) && !precedes(
                        roots,
                        key_of(l.last()),
                        key_of(rows[j]),
                    ) implies l.contains(rows[j]) by {
                    if n > 1 && !precedes(roots, key_of(p.last()), key_of(rows[j])) {
                        assert(p.contains(rows[j]));
                        let q = choose|q: int| 0 <= q < p.len() && p[q] == rows[j];
                        assert(l[q] == rows[j]);
                    } else {
                        assert(eligible(rows, roots, owner, v, b, j));
                        if j != k {
                            assert(precedes(roots, key_of(c), key_of(rows[j])));
                        }
                        assert(l[l.len() - 1] == rows[j]);
                    }
                }
            } else {
                assert(l == p);
                assert forall|j: int|
                    #![trigger eligible(rows, roots, owner, v, bound, j)]
                    eligible(rows, roots, owner, v, bound, j) implies l.contains(rows[j]) by {
                    if n == 1 || precedes(roots, key_of(p.last()), key_of(rows[j])) {
                        assert(eligible(rows, roots, owner, v, b, j));
                        assert(!is_next(rows, roots, owner, v, b, j));
                        lemma_first_exists(rows, roots, owner, v, b, j);
                    } else {
                        assert(p.len() > 0);
                    }
                }
            }
        }
    }
}

/// Where some row is eligible, one of them is the first: keys are distinct.
proof fn lemma_first_exists(
    rows: Seq<CommentView>,
    roots: bool,
    owner: i64,
    v: Visibility,
    b: Option<(i64, i64)>,
    j: int,
)
    requires
        ids_unique(rows),
        eligible(rows, roots, owner, v, b, j),
    ensures
        exists|i: int| is_next(rows, roots, owner, v, b, i),
{
    lemma_first_among(rows, roots, owner, v, b, j, count_before(rows, roots, owner, v, b, j));
}

/// Some eligible row has a key no later than `rows[j]`'s and comes first.
proof fn lemma_first_among(
    rows: Seq<CommentView>,
    roots: bool,
    owner: i64,
    v: Visibility,
    b: Option<(i64, i64)>,
    j: int,
    fuel: nat,
)
    requires
        ids_unique(rows),
        eligible(rows, roots, owner, v, b, j),
        fuel >= count_before(rows, roots, owner, v, b, j),
    ensures
        exists|i: int| is_next(rows, roots, owner, v, b, i),
    decreases fuel,
{
    if !is_next(rows, roots, owner, v, b, j) {
        let k = choose|k: int|
            eligible(rows, roots, owner, v, b, k) && k != j && !precedes(
                roots,
                key_of(rows[j]),
                key_of(rows[k]),
            );
        assert(rows[j].id != rows[k].id);
        assert(precedes(roots, key_of(rows[k]), key_of(rows[j])));
        lemma_count_before_drops(rows, roots, owner, v, b, k, j);
        lemma_first_among(rows, roots, owner, v, b, k, (fuel - 1) as nat);
    }
}

/// How many eligible rows come before `rows[j]`.
spec fn count_before(
    rows: Seq<CommentView>,
    roots: bool,
    owner: i64,
    v: Visibility,
    b: Option<(i64, i64)>,
    j: int,
) -> nat {
    Set::new(
        |i: int|
            eligible(rows, roots, owner, v, b, i) && precedes(roots, key_of(rows[i]), key_of(rows[j])),
    ).len()
}

proof fn lemma_count_before_drops(
    rows: Seq<CommentView>,
    roots: bool,
    owner: i64,
    v: Visibility,
    b: Option<(i64, i64)>,
    k: int,
    j: int,
)
    requires
        eligible(rows, roots, owner, v, b, k),
        eligible(rows, roots, owner, v, b, j),
        precedes(roots, key_of(rows[k]), key_of(rows[j])),
    ensures
        count_before(rows, roots, owner, v, b, k) < count_before(rows, roots, owner, v, b, j),
{
    let sk = Set::new(
        |i: int|
            eligible(rows, roots, owner, v, b, i) && precedes(roots, key_of(rows[i]), key_of(rows[k])),
    );
    let sj = Set::new(
        |i: int|
            eligible(rows, roots, owner, v, b, i) && precedes(roots, key_of(rows[i]), key_of(rows[j])),
    );
    let all = Set::new(|i: int| 0 <= i < rows.len());
    assert(all =~= vstd::set_lib::set_int_range(0, rows.len() as int));
    vstd::set_lib::lemma_int_range(0, rows.len() as int);
    assert(sj.subset_of(all));
    vstd::set_lib::lemma_len_subset(sj, all);
    assert(sk.subset_of(sj));
    assert(sj.contains(k));
    assert(!sk.contains(k));
    vstd::set_lib::lemma_len_subset(sk, sj.remove(k));
    assert(sj.remove(k).len() == sj.len() - 1);
}

/// Paging is one fetch cut in pieces: the first `m` rows after `bound`,
/// followed by the first `n` rows after the last of them, are the first
/// `m + n` rows after `bound`.
pub proof fn lemma_pages_concatenate(
    rows: Seq<CommentView>,
    roots: bool,
    owner: i64,
    v: Visibility,
    bound: Option<(i64, i64)>,
    m: nat,
    n: nat,
)
    requires
        m > 0,
        listing(rows, roots, owner, v, bound, m).len() == m,
    ensures
        listing(rows, roots, owner, v, bound, m + n) == listing(rows, roots, owner, v, bound, m)
            + listing(
            rows,
            roots,
            owner,
            v,
            Some(key_of(listing(rows, roots, owner, v, bound, m).last())),
            n,
        ),
    decreases n,
{
    let a = listing(rows, roots, owner, v, bound, m);
    let b2 = Some(key_of(a.last()));
    if n == 0 {
        assert(a + listing(rows, roots, owner, v, b2, 0) =~= a);
    } else {
        lemma_pages_concatenate(rows, roots, owner, v, bound, m, (n - 1) as nat);
        let p = listing(rows, roots, owner, v, bound, (m + n - 1) as nat);
        let q = listing(rows, roots, owner, v, b2, (n - 1) as nat);
        assert(p == a + q);
        lemma_listing_len(rows, roots, owner, v, b2, (n - 1) as nat);
        if q.len() == n - 1 {
            if n == 1 {
                assert(q =~= Seq::<CommentView>::empty());
                assert(p =~= a);
            } else {
                assert(p.last() == q.last());
            }
            match next_row(rows, roots, owner, v, if n == 1 { b2 } else { Some(key_of(q.last())) }) {
                Some(c) => {
                    assert(p.push(c) =~= a + q.push(c));
                },
                None => {},
            }
        }
    }
}

/// Counts the rows of a listing.
fn count_listing(rows: &Vec<Comment>, roots: bool, owner: i64, v: &Visibility) -> (r: usize)
    ensures
        r == listing_size(rows_view(rows@), roots, owner, *v),
{
    let ghost rv = rows_view(rows@);
    let mut n: usize = 0;
    let mut i: usize = 0;
    while i < rows.len()
        invariant
            i <= rows.len(),
            n <= i,
            rv == rows_view(rows@),
            n == listing_size(rv.subrange(0, i as int), roots, owner, *v),
        decreases rows.len() - i,
    {
        proof {
            assert(rv.subrange(0, i + 1).drop_last() =~= rv.subrange(0, i as int));
            assert(rv.subrange(0, i + 1).last() == rows@[i as int]@);
        }
        if in_listing_exec(&rows[i], roots, owner, v) {
            n += 1;
        }
        i += 1;
    }
    assert(rv.subrange(0, rows.len() as int) =~= rv);
    n
}

/// One page of the roots of page `page_id`, newest first: the first `limit`
/// roots that `visibility` shows and that come after `cursor`, with the number
/// of roots that `visibility` shows on the page, the cursor aside. A caller
/// that wants to know whether more follow asks for one more than it shows.
pub fn root_comments(
    rows: &Vec<Comment>,
    page_id: i64,
    limit: usize,
    visibility: &Visibility,
    cursor: Option<Cursor>,
) -> (r: (usize, Vec<Comment>))
    requires
        ids_unique(rows_view(rows@)),
    ensures
        r.0 == listing_size(rows_view(rows@), true, page_id, *visibility),
        rows_view(r.1@) == listing(
            rows_view(rows@),
            true,
            page_id,
            *visibility,
            cursor_key(cursor),
            limit as nat,
        ),
{
    let bound = match cursor {
        Some(c) => Some((c.created_at, c.id)),
        None => None,
    };
    let total = count_listing(rows, true, page_id, visibility);
    let items = take_listing(rows, true, page_id, visibility, bound, limit);
    (total, items)
}

/// One page of the replies to comment `parent_id`, oldest first: the first
/// `limit` that `visibility` shows and that come after `cursor`. Paging the
/// replies of one thread leaves the page of roots where it is.
pub fn page_replies(
    rows: &Vec<Comment>,
    parent_id: i64,
    limit: usize,
    visibility: &Visibility,
    cursor: Option<Cursor>,
) -> (r: Vec<Comment>)
    requires
        ids_unique(rows_view(rows@)),
    ensures
        rows_view(r@) == listing(
            rows_view(rows@),
            false,
            parent_id,
            *visibility,
            cursor_key(cursor),
            limit as nat,
        ),
{
    let bound = match cursor {
        Some(c) => Some((c.created_at, c.id)),
        None => None,
    };
    take_listing(rows, false, parent_id, visibility, bound, limit)
}

/// The replies to a page of roots in one pass: for each parent in turn, its
/// first `limit` replies that `visibility` shows, oldest first. The cap is
/// taken over what `visibility` shows, so hidden replies take no place in it.
pub fn replies(
    rows: &Vec<Comment>,
    visibility: &Visibility,
    parents: &Vec<Comment>,
    limit: usize,
) -> (r: Vec<Comment>)
    requires
        ids_unique(rows_view(rows@)),
    ensures
        rows_view(r@) == reply_groups(rows_view(rows@), rows_view(parents@), *visibility, limit as nat),
{
    let ghost rv = rows_view(rows@);
    let ghost pv = rows_view(parents@);
    let mut out: Vec<Comment> = Vec::new();
    let mut i: usize = 0;
    assert(pv.subrange(0, 0) =~= Seq::<CommentView>::empty());
    while i < parents.len()
        invariant
            i <= parents.len(),
            rv == rows_view(rows@),
            pv == rows_view(parents@),
            ids_unique(rv),
            rows_view(out@) == reply_groups(rv, pv.subrange(0, i as int), *visibility, limit as nat),
        decreases parents.len() - i,
    {
        let group = take_listing(rows, false, parents[i].id, visibility, None, limit);
        let ghost before = out@;
        let mut j: usize = 0;
        while j < group.len()
            invariant
                j <= group.len(),
                rows_view(out@) == rows_view(before) + rows_view(group@).subrange(0, j as int),
            decreases group.len() - j,
        {
            let ghost prev = out@;
            out.push(group[j].copy());
            assert(rows_view(out@) =~= rows_view(prev).push(group@[j as int]@));
            assert(rows_view(group@).subrange(0, j + 1) =~= rows_view(group@).subrange(0, j as int).push(
                group@[j as int]@,
            ));
            j += 1;
            assert(rows_view(out@) =~= rows_view(before) + rows_view(group@).subrange(0, j as int));
        }
        proof {
            assert(rows_view(group@).subrange(0, group.len() as int) =~= rows_view(group@));
            assert(pv.subrange(0, i + 1).drop_last() =~= pv.subrange(0, i as int));
            assert(pv.subrange(0, i + 1).last() == parents@[i as int]@);
        }
        i += 1;
    }
    assert(pv.subrange(0, parents.len() as int) =~= pv);
    out
}

/// A page's count of reviewed comments after one of its comments, reviewed
/// or not, is approved: approval is one-way, so only the first one counts.
pub open spec fn count_after_approval(count: int, reviewed: bool) -> int {
    if reviewed {
        count
    } else {
        count + 1
    }
}

/// The comment as it is once approved.
pub open spec fn approved_view(c: CommentView) -> CommentView {
    CommentView { reviewed: true, ..c }
}

/// Approves a comment of `page`, and counts it on the page where it was not
/// reviewed before; the two change together, as one transaction writes them.
pub fn approve(page: &mut Page, comment: &mut Comment)
    requires
        old(comment).page_id == old(page).id,
        old(page).comments_count < i64::MAX,
    ensures
        final(comment)@ == approved_view(old(comment)@),
        final(page).comments_count == count_after_approval(
            old(page).comments_count as int,
            old(comment).reviewed,
        ),
        final(page).id == old(page).id,
        final(page).site == old(page).site,
        final(page).path == old(page).path,
        final(page).locked == old(page).locked,
{
    if !comment.reviewed {
        comment.reviewed = true;
        page.comments_count = page.comments_count + 1;
    }
}

/// Approving twice counts once: after a second approval the comment is
/// still approved and the page's count is what the first one left.
pub proof fn lemma_approve_idempotent(count: int, reviewed: bool, c: CommentView)
    ensures
        count_after_approval(count_after_approval(count, reviewed), true) == count_after_approval(
            count,
            reviewed,
        ),
        count_after_approval(count_after_approval(count, false), true) == count + 1,
        approved_view(approved_view(c)) == approved_view(c),
{
}

/// Counts a newly stored comment on its page when it is stored approved.
pub fn count_new_comment(page: &mut Page, reviewed: bool)
    requires
        old(page).comments_count < i64::MAX,
    ensures
        final(page).comments_count == old(page).comments_count + if reviewed {
            1int
        } else {
            0int
        },
        final(page).id == old(page).id,
        final(page).site == old(page).site,
        final(page).path == old(page).path,
        final(page).locked == old(page).locked,
{
    if reviewed {
        page.comments_count = page.comments_count + 1;
    }
}

/// The comments among `rows` that await review, in the order of `rows`.
pub open spec fn pending(rows: Seq<CommentView>) -> Seq<CommentView>
    decreases rows.len(),
{
    if rows.len() == 0 {
        Seq::empty()
    } else if rows.last().reviewed {
        pending(rows.drop_last())
    } else {
        pending(rows.drop_last()).push(rows.last())
    }
}

/// The comments that await review, for a moderator's queue.
pub fn unreviewed(rows: &Vec<Comment>) -> (r: Vec<Comment>)
    ensures
        rows_view(r@) == pending(rows_view(rows@)),
{
    let ghost rv = rows_view(rows@);
    let mut out: Vec<Comment> = Vec::new();
    let mut i: usize = 0;
    assert(rows_view(out@) =~= pending(rv.subrange(0, 0)));
    while i < rows.len()
        invariant
            i <= rows.len(),
            rv == rows_view(rows@),
            rows_view(out@) == pending(rv.subrange(0, i as int)),
        decreases rows.len() - i,
    {
        proof {
            assert(rv.subrange(0, i + 1).drop_last() =~= rv.subrange(0, i as int));
            assert(rv.subrange(0, i + 1).last() == rows@[i as int]@);
        }
        if !rows[i].reviewed {
            let ghost prev = out@;
            out.push(rows[i].copy());
            assert(rows_view(out@) =~= rows_view(prev).push(rows@[i as int]@));
        }
        i += 1;
    }
    assert(rv.subrange(0, rows.len() as int) =~= rv);
    out
}

} // verus!
