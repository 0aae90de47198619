//! The keyset cursor: the sort key of the last item a client has seen,
//! carried as base64 text of the JSON object `{"id":..,"created_at":..}`.
use crate::api::encoding::{base64_of, bytes_eq, decode_base64, encode_base64};
use crate::api::error::Error;
use vstd::prelude::*;

verus! {

/// The sort key of the last item a client has seen: comments are ordered by
/// `(created_at, id)`, `created_at` in milliseconds since the Unix epoch.
#[derive(Debug, Clone, Copy, PartialEq, Eq)]
pub struct Cursor {
    pub id: i64,
    pub created_at: i64,
}

/// Whether a byte is an ASCII decimal digit.
pub open spec fn is_digit(x: u8) -> bool {
    48 <= x <= 57
}

/// The decimal digits of a natural number, most significant first, with no
/// leading zero.
pub open spec fn digits(n: nat) -> Seq<u8>
    decreases n,
{
    if n < 10 {
        seq![(n + 48) as u8]
    } else {
        digits(n / 10).push((n % 10 + 48) as u8)
    }
}

/// The number that a string of decimal digits denotes.
pub open spec fn digit_value(s: Seq<u8>) -> nat
    decreases s.len(),
{
    if s.len() == 0 {
        0
    } else {
        digit_value(s.drop_last()) * 10 + (s.last() - 48) as nat
    }
}

/// Ten to the power `k`.
pub open spec fn pow10(k: nat) -> nat
    decreases k,
{
    if k == 0 {
        1
    } else {
        10 * pow10((k - 1) as nat)
    }
}

/// The JSON text of an integer: an optional minus sign and its digits.
pub open spec fn int_text(v: int) -> Seq<u8> {
    if v < 0 {
        seq![45u8] + digits((-v) as nat)
    } else {
        digits(v as nat)
    }
}

proof fn lemma_digits_shape(n: nat)
    ensures
        digits(n).len() >= 1,
        forall|i: int| 0 <= i < digits(n).len() ==> is_digit(#[trigger] digits(n)[i]),
        digit_value(digits(n)) == n,
    decreases n,
{
    if n >= 10 {
        lemma_digits_shape(n / 10);
        let s = digits(n / 10);
        assert(digits(n).drop_last() =~= s);
        assert(digits(n).last() == (n % 10 + 48) as u8);
        assert(digit_value(digits(n)) == digit_value(s) * 10 + n % 10);
        assert((n / 10) * 10 + n % 10 == n);
    } else {
        assert(digits(n).drop_last() =~= Seq::<u8>::empty());
        assert(digit_value(Seq::<u8>::empty()) == 0);
        assert(digits(n).last() == (n + 48) as u8);
    }
}

proof fn lemma_digits_len(n: nat, k: nat)
    requires
        k >= 1,
        n < pow10(k),
    ensures
        digits(n).len() <= k,
    decreases n,
{
    if n >= 10 {
        assert(k >= 2) by {
            if k == 1 {
                assert(pow10(1) == 10 * pow10(0));
            }
        }
        assert(pow10(k) == 10 * pow10((k - 1) as nat));
        assert(n / 10 < pow10((k - 1) as nat)) by (nonlinear_arith)
            requires n < 10 * pow10((k - 1) as nat);
        lemma_digits_len(n / 10, (k - 1) as nat);
    }
}

proof fn lemma_digit_value_bound(s: Seq<u8>)
    requires
        forall|i: int| 0 <= i < s.len() ==> is_digit(#[trigger] s[i]),
    ensures
        digit_value(s) < pow10(s.len()),
    decreases s.len(),
{
    if s.len() > 0 {
        let t = s.drop_last();
        assert forall|i: int| 0 <= i < t.len() implies is_digit(#[trigger] t[i]) by {
            assert(t[i] == s[i]);
        }
        lemma_digit_value_bound(t);
        assert(s.last() == s[s.len() - 1]);
        let a = digit_value(t);
        let p = pow10(t.len());
        assert(pow10(s.len()) == 10 * p);
        assert(a * 10 + (s.last() - 48) < 10 * p) by (nonlinear_arith)
            requires a < p, 0 <= s.last() - 48 <= 9;
    }
}

/// Appends the decimal digits of `n` to `out`.
fn push_digits(out: &mut Vec<u8>, n: u64)
    ensures
        final(out)@ == old(out)@ + digits(n as nat),
    decreases n,
{
    if n >= 10 {
        push_digits(out, n / 10);
    }
    out.push((n % 10) as u8 + 48);
    proof {
        if n >= 10 {
            assert(digits(n as nat) == digits((n / 10) as nat).push((n % 10 + 48) as u8));
        }
    }
    assert(final(out)@ =~= old(out)@ + digits(n as nat));
}

/// Appends the JSON text of `v` to `out`.
fn push_int(out: &mut Vec<u8>, v: i64)
    ensures
        final(out)@ == old(out)@ + int_text(v as int),
{
    if v < 0 {
        out.push(45u8);
        let m: u64 = (0i128 - v as i128) as u64;
        push_digits(out, m);
        assert(final(out)@ =~= old(out)@ + int_text(v as int));
    } else {
        push_digits(out, v as u64);
    }
}

/// Whether `b`, from `pos` on, holds the JSON text of `v` followed by a byte
/// that is not a digit, or by nothing.
pub open spec fn int_at(b: Seq<u8>, pos: int, v: int) -> bool {
    let l = int_text(v).len() as int;
    &&& 0 <= pos
    &&& pos + l <= b.len()
    &&& b.subrange(pos, pos + l) == int_text(v)
    &&& (pos + l == b.len() || !is_digit(b[pos + l]))
}

/// The bytes `{"id":`.
pub open spec fn id_field() -> Seq<u8> {
    seq![123u8, 34u8, 105u8, 100u8, 34u8, 58u8]
}

/// The bytes `,"created_at":`.
pub open spec fn created_at_field() -> Seq<u8> {
    seq![44u8, 34u8, 99u8, 114u8, 101u8, 97u8, 116u8, 101u8, 100u8, 95u8, 97u8, 116u8, 34u8, 58u8]
}

/// The JSON object that a cursor is written as.
pub open spec fn cursor_json(c: Cursor) -> Seq<u8> {
    id_field() + int_text(c.id as int) + created_at_field() + int_text(c.created_at as int) + seq![
        125u8,
    ]
}

/// The cursor whose JSON object a byte string is, if any.
pub open spec fn cursor_from_json(b: Seq<u8>) -> Option<Cursor> {
    if exists|c: Cursor| cursor_json(c) == b {
        Some(choose|c: Cursor| cursor_json(c) == b)
    } else {
        None
    }
}

proof fn lemma_int_text_shape(v: int)
    ensures
        int_text(v).len() >= 1,
        (int_text(v)[0] == 45u8) == (v < 0),
        v < 0 ==> int_text(v) == seq![45u8] + digits((-v) as nat),
        v >= 0 ==> int_text(v) == digits(v as nat),
{
    if v < 0 {
        lemma_digits_shape((-v) as nat);
    } else {
        lemma_digits_shape(v as nat);
        assert(is_digit(digits(v as nat)[0]));
    }
}

/// Two digit strings, each followed by a byte that is not a digit, are equal
/// where their concatenations are.
proof fn lemma_digits_prefix_free(d1: Seq<u8>, d2: Seq<u8>, r1: Seq<u8>, r2: Seq<u8>)
    requires
        d1 + r1 == d2 + r2,
        forall|i: int| 0 <= i < d1.len() ==> is_digit(#[trigger] d1[i]),
        forall|i: int| 0 <= i < d2.len() ==> is_digit(#[trigger] d2[i]),
        r1.len() > 0 && !is_digit(r1[0]),
        r2.len() > 0 && !is_digit(r2[0]),
    ensures
        d1 == d2,
        r1 == r2,
{
    let s = d1 + r1;
    if d1.len() < d2.len() {
        assert(s[d1.len() as int] == r1[0]);
        assert((d2 + r2)[d1.len() as int] == d2[d1.len() as int]);
    } else if d2.len() < d1.len() {
        assert(s[d2.len() as int] == d1[d2.len() as int]);
        assert((d2 + r2)[d2.len() as int] == r2[0]);
    }
    assert(d1 =~= s.subrange(0, d1.len() as int));
    assert(d2 =~= (d2 + r2).subrange(0, d2.len() as int));
    assert(r1 =~= s.subrange(d1.len() as int, s.len() as int));
    assert(r2 =~= (d2 + r2).subrange(d2.len() as int, s.len() as int));
}

/// The JSON text of an integer, followed by a byte that is neither a digit
/// nor empty, determines the integer and what follows.
proof fn lemma_int_text_prefix_free(x: int, y: int, r1: Seq<u8>, r2: Seq<u8>)
    requires
        int_text(x) + r1 == int_text(y) + r2,
        r1.len() > 0 && !is_digit(r1[0]),
        r2.len() > 0 && !is_digit(r2[0]),
    ensures
        x == y,
        r1 == r2,
{
    lemma_int_text_shape(x);
    lemma_int_text_shape(y);
    let s = int_text(x) + r1;
    assert(s[0] == int_text(x)[0]);
    assert((int_text(y) + r2)[0] == int_text(y)[0]);
    let mx: nat = if x < 0 { (-x) as nat } else { x as nat };
    let my: nat = if y < 0 { (-y) as nat } else { y as nat };
    lemma_digits_shape(mx);
    lemma_digits_shape(my);
    if x < 0 {
        assert(s.subrange(1, s.len() as int) =~= digits(mx) + r1);
        assert((int_text(y) + r2).subrange(1, s.len() as int) =~= digits(my) + r2);
    } else {
        assert(s =~= digits(mx) + r1);
        assert(int_text(y) + r2 =~= digits(my) + r2);
    }
    lemma_digits_prefix_free(digits(mx), digits(my), r1, r2);
}

/// A cursor's JSON object determines the cursor.
pub proof fn lemma_cursor_json_injective(a: Cursor, b: Cursor)
    requires
        cursor_json(a) == cursor_json(b),
    ensures
        a == b,
{
    let end = seq![125u8];
    let ra = created_at_field() + int_text(a.created_at as int) + end;
    let rb = created_at_field() + int_text(b.created_at as int) + end;
    assert(cursor_json(a).subrange(6, cursor_json(a).len() as int) =~= int_text(a.id as int) + ra);
    assert(cursor_json(b).subrange(6, cursor_json(b).len() as int) =~= int_text(b.id as int) + rb);
    assert(ra[0] == 44u8);
    assert(rb[0] == 44u8);
    lemma_int_text_prefix_free(a.id as int, b.id as int, ra, rb);
    assert(ra.subrange(14, ra.len() as int) =~= int_text(a.created_at as int) + end);
    assert(rb.subrange(14, rb.len() as int) =~= int_text(b.created_at as int) + end);
    lemma_int_text_prefix_free(a.created_at as int, b.created_at as int, end, end);
}

/// Decoding the JSON object of a cursor gives back that cursor.
pub proof fn lemma_cursor_round_trip(c: Cursor)
    ensures
        cursor_from_json(cursor_json(c)) == Some(c),
{
    let d = choose|d: Cursor| cursor_json(d) == cursor_json(c);
    lemma_cursor_json_injective(d, c);
}

/// Where a scan of digits from `start` stopped at `i`, and `d` is the digit
/// string that stands at `start`, followed by a non-digit or by nothing, the
/// scan read exactly `d`.
proof fn lemma_scan_reads(b: Seq<u8>, start: int, i: int, d: Seq<u8>)
    requires
        0 <= start <= i <= b.len(),
        start + d.len() <= b.len(),
        b.subrange(start, start + d.len()) == d,
        forall|k: int| 0 <= k < d.len() ==> is_digit(#[trigger] d[k]),
        start + d.len() == b.len() || !is_digit(b[start + d.len()]),
        forall|j: int| start <= j < i ==> is_digit(#[trigger] b[j]),
        i == b.len() || !is_digit(b[i]) || (i - start == 19 && d.len() <= 19),
    ensures
        i == start + d.len(),
{
    if i < start + d.len() {
        assert(b[i] == d[i - start]);
        if i - start == 19 {
            assert(false);
        }
    } else if i > start + d.len() {
        assert(is_digit(b[start + d.len()]));
    }
}

/// Reads the JSON text of an integer at `pos`: an optional minus sign and at
/// most 19 digits. Returns the integer and the position after its text.
fn parse_int(b: &Vec<u8>, pos: usize) -> (r: Option<(i64, usize)>)
    requires
        pos <= b.len(),
    ensures
        r is Some ==> r.unwrap().1 <= b.len(),
        forall|v: i64| #[trigger] int_at(b@, pos as int, v as int) ==> r == Some(
            (v, (pos + int_text(v as int).len()) as usize),
        ),
{
    let neg = pos < b.len() && b[pos] == 45u8;
    let start: usize = if neg {
        pos + 1
    } else {
        pos
    };
    let mut i: usize = start;
    let mut acc: u64 = 0;
    while i < b.len() && i - start < 19 && 48u8 <= b[i] && b[i] <= 57u8
        invariant
            start <= i <= b.len(),
            i - start <= 19,
            acc == digit_value(b@.subrange(start as int, i as int)),
            acc < pow10((i - start) as nat),
            forall|j: int| start <= j < i ==> is_digit(#[trigger] b@[j]),
        decreases b.len() - i,
    {
        let ghost prev = b@.subrange(start as int, i as int);
        proof {
            reveal_with_fuel(pow10, 20);
            assert(pow10(18) == 1000000000000000000nat);
            assert(pow10((i - start) as nat) <= pow10(18)) by {
                lemma_pow10_mono((i - start) as nat, 18);
            }
            assert(b@.subrange(start as int, i + 1) =~= prev.push(b@[i as int]));
            assert(b@.subrange(start as int, i + 1).drop_last() =~= prev);
            assert(pow10((i + 1 - start) as nat) == 10 * pow10((i - start) as nat));
            let p = pow10((i - start) as nat);
            assert(acc * 10 + (b@[i as int] - 48) < 10 * p) by (nonlinear_arith)
                requires acc < p, 0 <= b@[i as int] - 48 <= 9;
            assert(acc * 10 + 9 < 10000000000000000000) by (nonlinear_arith)
                requires acc < p, p <= 1000000000000000000;
        }
        acc = acc * 10 + (b[i] - 48u8) as u64;
        i += 1;
    }
    let ghost end = i;
    proof {
        assert forall|v: i64| #[trigger] int_at(b@, pos as int, v as int) implies {
            &&& i == start + digits(
                if v < 0 {
                    (-v) as nat
                } else {
                    v as nat
                },
            ).len()
            &&& acc == (if v < 0 {
                (-v) as nat
            } else {
                v as nat
            })
            &&& neg == (v < 0)
        } by {
            let m: nat = if v < 0 {
                (-v) as nat
            } else {
                v as nat
            };
            let t = int_text(v as int);
            lemma_int_text_shape(v as int);
            lemma_digits_shape(m);
            assert(b@[pos as int] == t[0]);
            let d = digits(m);
            if v < 0 {
                assert(b@.subrange(start as int, start + d.len()) =~= t.subrange(1, t.len() as int));
                assert(t.subrange(1, t.len() as int) =~= d);
            } else {
                assert(b@.subrange(start as int, start + d.len()) =~= t);
            }
            assert(m < 10000000000000000000nat);
            reveal_with_fuel(pow10, 20);
            lemma_digits_len(m, 19);
            lemma_scan_reads(b@, start as int, i as int, d);
        }
    }
    if i == start || (i - start == 19 && i < b.len() && 48u8 <= b[i] && b[i] <= 57u8) {
        return None;
    }
    if neg {
        if acc > 9223372036854775808u64 {
            None
        } else {
            Some(((0i128 - acc as i128) as i64, i))
        }
    } else {
        if acc > 9223372036854775807u64 {
            None
        } else {
            Some((acc as i64, i))
        }
    }
}

proof fn lemma_pow10_mono(a: nat, b: nat)
    requires
        a <= b,
    ensures
        pow10(a) <= pow10(b),
    decreases b,
{
    if a < b {
        lemma_pow10_mono(a, (b - 1) as nat);
        assert(pow10(b) == 10 * pow10((b - 1) as nat));
    }
}

/// Appends the bytes `{"id":`.
fn push_id_field(out: &mut Vec<u8>)
    ensures
        final(out)@ == old(out)@ + id_field(),
{
    out.push(123u8);
    out.push(34u8);
    out.push(105u8);
    out.push(100u8);
    out.push(34u8);
    out.push(58u8);
    assert(final(out)@ =~= old(out)@ + id_field());
}

/// Appends the bytes `,"created_at":`.
fn push_created_at_field(out: &mut Vec<u8>)
    ensures
        final(out)@ == old(out)@ + created_at_field(),
{
    out.push(44u8);
    out.push(34u8);
    out.push(99u8);
    out.push(114u8);
    out.push(101u8);
    out.push(97u8);
    out.push(116u8);
    out.push(101u8);
    out.push(100u8);
    out.push(95u8);
    out.push(97u8);
    out.push(116u8);
    out.push(34u8);
    out.push(58u8);
    assert(final(out)@ =~= old(out)@ + created_at_field());
}

impl Cursor {
    /// The JSON object of this cursor, as bytes.
    pub fn to_json(&self) -> (r: Vec<u8>)
        ensures
            r@ == cursor_json(*self),
    {
        let mut out: Vec<u8> = Vec::new();
        push_id_field(&mut out);
        push_int(&mut out, self.id);
        push_created_at_field(&mut out);
        push_int(&mut out, self.created_at);
        out.push(125u8);
        assert(out@ =~= cursor_json(*self));
        out
    }

    /// Reads a cursor from its JSON object; any other bytes give `None`.
    pub fn from_json(b: &Vec<u8>) -> (r: Option<Cursor>)
        ensures
            r == cursor_from_json(b@),
    {
        let r = Self::parse_json(b);
        proof {
            if r is Some {
                lemma_cursor_round_trip(r.unwrap());
            }
        }
        r
    }

    fn parse_json(b: &Vec<u8>) -> (r: Option<Cursor>)
        ensures
            r is Some ==> cursor_json(r.unwrap()) == b@,
            (exists|c: Cursor| cursor_json(c) == b@) ==> r is Some,
    {
        proof {
            if exists|c: Cursor| cursor_json(c) == b@ {
                let c = choose|c: Cursor| cursor_json(c) == b@;
                let t1 = int_text(c.id as int);
                let t2 = int_text(c.created_at as int);
                let l1 = t1.len() as int;
                let l2 = t2.len() as int;
                assert(b@.subrange(6, 6 + l1) =~= t1);
                assert(b@[6 + l1] == 44u8);
                assert(int_at(b@, 6, c.id as int));
                assert(b@.subrange(20 + l1, 20 + l1 + l2) =~= t2);
                assert(b@[20 + l1 + l2] == 125u8);
                assert(int_at(b@, 20 + l1, c.created_at as int));
            }
        }
        if b.len() < 6 {
            return None;
        }
        let (id, p) = match parse_int(b, 6) {
            Some(x) => x,
            None => {
                return None;
            },
        };
        if b.len() - p < 14 {
            return None;
        }
        let (created_at, _) = match parse_int(b, p + 14) {
            Some(x) => x,
            None => {
                return None;
            },
        };
        let c = Cursor { id, created_at };
        let written = c.to_json();
        if bytes_eq(&written, b) {
            Some(c)
        } else {
            None
        }
    }

    /// The opaque text that a client carries: base64 of the JSON object.
    pub fn encode(&self) -> (r: String)
        ensures
            r@ == base64_of(cursor_json(*self)),
    {
        let json = self.to_json();
        encode_base64(json.as_slice())
    }

    /// Reads a cursor from the text that `encode` writes. Any other text is a
    /// bad request: it is never taken as the first page.
    pub fn decode(s: &str) -> (r: Result<Cursor, Error>)
        ensures
            r is Ok ==> base64_of(cursor_json(r.unwrap())) == s@,
            forall|c: Cursor| #[trigger] base64_of(cursor_json(c)) == s@ ==> r == Ok::<Cursor, Error>(c),
            r is Err ==> r == Err::<Cursor, Error>(Error::BadRequest("Invalid cursor")),
    {
        match decode_base64(s) {
            None => Err(Error::BadRequest("Invalid cursor")),
            Some(bytes) => {
                let r = Self::parse_json(&bytes);
                proof {
                    assert forall|c: Cursor| #[trigger] base64_of(cursor_json(c)) == s@ implies r
                        == Some(c) by {
                        assert(bytes@ == cursor_json(c));
                        lemma_cursor_json_injective(r.unwrap(), c);
                    }
                }
                match r {
                    Some(c) => Ok(c),
                    None => Err(Error::BadRequest("Invalid cursor")),
                }
            },
        }
    }
}

} // verus!
