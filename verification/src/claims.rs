//! The claim sets carried by the two token kinds, and their wire form: a
//! flat JSON object whose string values escape only the quote and the
//! backslash, with the expiry as a decimal integer.
//!
//! The serializer and the parser are both verified; the parser is proved to
//! accept every serialized claim set and to return exactly its fields.
use vstd::prelude::*;

verus! {

use vstd::arithmetic::div_mod::lemma_fundamental_div_mod;

/// Claims of a short-lived access token: the subject (user id), the user's
/// email, and the expiry as a Unix timestamp in seconds.
pub struct AccessTokenClaims {
    pub sub: Vec<u8>,
    pub email: Vec<u8>,
    pub exp: u64,
}

/// Claims of a long-lived refresh token: a random token id as subject, the
/// user id it refreshes, and the expiry as a Unix timestamp in seconds.
pub struct RefreshTokenClaims {
    pub sub: Vec<u8>,
    pub user_id: Vec<u8>,
    pub exp: u64,
}

/// How one byte appears inside a JSON string: quote and backslash are
/// escaped with a backslash, every other byte stands as it is.
pub open spec fn esc1(b: u8) -> Seq<u8> {
    if b == 34 || b == 92 {
        seq![92u8, b]
    } else {
        seq![b]
    }
}

/// A byte sequence as it appears inside a JSON string.
pub open spec fn json_escape(s: Seq<u8>) -> Seq<u8>
    decreases s.len(),
{
    if s.len() == 0 {
        Seq::empty()
    } else {
        esc1(s[0]) + json_escape(s.skip(1))
    }
}

/// The decimal digits of a number, most significant first.
pub open spec fn dec_rep(n: nat) -> Seq<u8>
    decreases n,
{
    if n < 10 {
        seq![(48 + n) as u8]
    } else {
        dec_rep(n / 10) + seq![(48 + n % 10) as u8]
    }
}

/// Whether a byte is an ASCII decimal digit.
pub open spec fn is_digit(b: u8) -> bool {
    48 <= b <= 57
}

/// The value of a digit sequence, most significant first.
pub open spec fn digits_val(d: Seq<u8>) -> nat
    decreases d.len(),
{
    if d.len() == 0 {
        0
    } else {
        digits_val(d.drop_last()) * 10 + (d.last() - 48) as nat
    }
}

/// The bytes of `{"sub":"`.
pub open spec fn sub_prefix() -> Seq<u8> {
    seq![123u8, 34, 115, 117, 98, 34, 58, 34]
}

/// The bytes of `,"email":"`.
pub open spec fn mid_email() -> Seq<u8> {
    seq![44u8, 34, 101, 109, 97, 105, 108, 34, 58, 34]
}

/// The bytes of `,"user_id":"`.
pub open spec fn mid_user_id() -> Seq<u8> {
    seq![44u8, 34, 117, 115, 101, 114, 95, 105, 100, 34, 58, 34]
}

/// The bytes of `,"exp":`.
pub open spec fn mid_exp() -> Seq<u8> {
    seq![44u8, 34, 101, 120, 112, 34, 58]
}

/// The JSON payload of an access token:
/// `{"sub":"..","email":"..","exp":..}`.
pub open spec fn access_json(sub: Seq<u8>, email: Seq<u8>, exp: u64) -> Seq<u8> {
    sub_prefix() + json_escape(sub) + seq![34u8] + mid_email() + json_escape(email) + seq![34u8]
        + mid_exp() + dec_rep(exp as nat) + seq![125u8]
}

/// The JSON payload of a refresh token:
/// `{"sub":"..","user_id":"..","exp":..}`.
pub open spec fn refresh_json(sub: Seq<u8>, user_id: Seq<u8>, exp: u64) -> Seq<u8> {
    sub_prefix() + json_escape(sub) + seq![34u8] + mid_user_id() + json_escape(user_id)
        + seq![34u8] + mid_exp() + dec_rep(exp as nat) + seq![125u8]
}

/// Escaping a sequence extended by one byte appends that byte's escape.
proof fn lemma_escape_append(s: Seq<u8>, b: u8)
    ensures
        json_escape(s.push(b)) == json_escape(s) + esc1(b),
    decreases s.len(),
{
    if s.len() == 0 {
        assert(s.push(b).skip(1) =~= Seq::<u8>::empty());
        assert(s.push(b)[0] == b);
        assert(json_escape(s.push(b)) == esc1(b) + json_escape(s.push(b).skip(1)));
        assert(esc1(b) + json_escape(s.push(b).skip(1)) =~= esc1(b));
        assert(json_escape(s) + esc1(b) =~= esc1(b));
    } else {
        assert(s.push(b).skip(1) =~= s.skip(1).push(b));
        assert(s.push(b)[0] == s[0]);
        assert(json_escape(s.push(b)) == esc1(s[0]) + json_escape(s.skip(1).push(b)));
        lemma_escape_append(s.skip(1), b);
        assert(esc1(s[0]) + (json_escape(s.skip(1)) + esc1(b)) =~= (esc1(s[0]) + json_escape(
            s.skip(1),
        )) + esc1(b));
    }
}

/// Reading a JSON string from inside quotes: bytes up to the first
/// unescaped quote, unescaped; the position returned is past that quote.
pub open spec fn scan_string(v: Seq<u8>, i: int) -> Option<(Seq<u8>, int)>
    decreases v.len() - i,
{
    if i < 0 || i >= v.len() {
        None
    } else if v[i] == 34 {
        Some((Seq::empty(), i + 1))
    } else if v[i] == 92 {
        if i + 1 < v.len() && (v[i + 1] == 34 || v[i + 1] == 92) {
            match scan_string(v, i + 2) {
                Some(p) => Some((seq![v[i + 1]] + p.0, p.1)),
                None => None,
            }
        } else {
            None
        }
    } else {
        match scan_string(v, i + 1) {
            Some(p) => Some((seq![v[i]] + p.0, p.1)),
            None => None,
        }
    }
}

/// The maximal run of decimal digits starting at a position.
pub open spec fn scan_digits(v: Seq<u8>, i: int) -> Seq<u8>
    decreases v.len() - i,
{
    if i < 0 || i >= v.len() || !is_digit(v[i]) {
        Seq::empty()
    } else {
        seq![v[i]] + scan_digits(v, i + 1)
    }
}

/// Reading a string back from its escaped form followed by the closing
/// quote yields the original bytes.
proof fn lemma_scan_escaped(v: Seq<u8>, i: int, s: Seq<u8>)
    requires
        0 <= i,
        i + json_escape(s).len() + 1 <= v.len(),
        v.subrange(i, i + json_escape(s).len()) == json_escape(s),
        v[i + json_escape(s).len()] == 34,
    ensures
        scan_string(v, i) == Some((s, i + json_escape(s).len() + 1)),
    decreases s.len(),
{
    let e = json_escape(s);
    if s.len() == 0 {
        assert(v[i] == 34);
    } else {
        let b = s[0];
        let tail = json_escape(s.skip(1));
        assert(e == esc1(b) + tail);
        if b == 34 || b == 92 {
            assert(v[i] == e[0] && v[i + 1] == e[1]);
            assert(v[i] == 92 && v[i + 1] == b);
            assert(v.subrange(i + 2, i + 2 + tail.len()) =~= e.subrange(2, e.len() as int));
            assert(e.subrange(2, e.len() as int) =~= tail);
            lemma_scan_escaped(v, i + 2, s.skip(1));
            assert(seq![b] + s.skip(1) =~= s);
        } else {
            assert(v[i] == e[0]);
            assert(v[i] == b);
            assert(b != 34 && b != 92);
            assert(v.subrange(i + 1, i + 1 + tail.len()) =~= e.subrange(1, e.len() as int));
            assert(e.subrange(1, e.len() as int) =~= tail);
            lemma_scan_escaped(v, i + 1, s.skip(1));
            assert(seq![b] + s.skip(1) =~= s);
        }
    }
}

/// The decimal form of a number is a non-empty digit run.
proof fn lemma_dec_rep_digits(n: nat)
    ensures
        dec_rep(n).len() >= 1,
        forall|k: int| 0 <= k < dec_rep(n).len() ==> is_digit(#[trigger] dec_rep(n)[k]),
    decreases n,
{
    if n >= 10 {
        lemma_dec_rep_digits(n / 10);
    }
}

/// The decimal form of a number reads back as its value.
proof fn lemma_dec_rep_val(n: nat)
    ensures
        digits_val(dec_rep(n)) == n,
    decreases n,
{
    if n < 10 {
        assert(dec_rep(n) == seq![(48 + n) as u8]);
        assert(dec_rep(n).drop_last() =~= Seq::<u8>::empty());
        assert(dec_rep(n).last() == (48 + n) as u8);
        assert(digits_val(dec_rep(n)) == digits_val(Seq::<u8>::empty()) * 10 + ((48 + n) as u8
            - 48) as nat);
    } else {
        lemma_dec_rep_val(n / 10);
        assert(dec_rep(n).drop_last() =~= dec_rep(n / 10));
        assert(dec_rep(n).last() == (48 + n % 10) as u8);
        lemma_fundamental_div_mod(n as int, 10);
    }
}

/// A digit run embedded before a non-digit byte is exactly what the digit
/// scan returns there.
proof fn lemma_scan_digits_at(v: Seq<u8>, i: int, d: Seq<u8>)
    requires
        0 <= i,
        i + d.len() < v.len(),
        forall|k: int| 0 <= k < d.len() ==> is_digit(#[trigger] d[k]),
        v.subrange(i, i + d.len()) == d,
        !is_digit(v[i + d.len()]),
    ensures
        scan_digits(v, i) == d,
    decreases d.len(),
{
    if d.len() == 0 {
        assert(!is_digit(v[i]));
        assert(scan_digits(v, i) =~= d);
    } else {
        assert(v[i] == d[0]);
        assert(v.subrange(i + 1, i + 1 + d.skip(1).len()) =~= d.subrange(1, d.len() as int));
        assert(d.subrange(1, d.len() as int) =~= d.skip(1));
        lemma_scan_digits_at(v, i + 1, d.skip(1));
        assert(seq![d[0]] + d.skip(1) =~= d);
    }
}

/// A digit run's prefixes never read above the run's own value.
proof fn lemma_digits_val_take(d: Seq<u8>, k: int)
    requires
        0 <= k <= d.len(),
        forall|j: int| 0 <= j < d.len() ==> is_digit(#[trigger] d[j]),
    ensures
        digits_val(d.take(k)) <= digits_val(d),
    decreases d.len() - k,
{
    if k == d.len() {
        assert(d.take(k) =~= d);
    } else {
        lemma_digits_val_take(d, k + 1);
        assert(d.take(k + 1).drop_last() =~= d.take(k));
        assert(d.take(k + 1).last() == d[k]);
        assert(digits_val(d.take(k)) <= digits_val(d.take(k)) * 10 + (d[k] - 48) as nat);
    }
}

/// What the access-token payload parser returns on any byte sequence.
pub open spec fn parse_access_spec(v: Seq<u8>) -> Option<(Seq<u8>, Seq<u8>, u64)> {
    if !(v.len() >= 8 && v.subrange(0, 8) == sub_prefix()) {
        None
    } else {
        match scan_string(v, 8) {
            None => None,
            Some((sub, i)) => if !(i + 10 <= v.len() && v.subrange(i, i + 10) == mid_email()) {
                None
            } else {
                match scan_string(v, i + 10) {
                    None => None,
                    Some((email, j)) => parse_exp_tail(v, j, sub, email),
                }
            },
        }
    }
}

/// What the refresh-token payload parser returns on any byte sequence.
pub open spec fn parse_refresh_spec(v: Seq<u8>) -> Option<(Seq<u8>, Seq<u8>, u64)> {
    if !(v.len() >= 8 && v.subrange(0, 8) == sub_prefix()) {
        None
    } else {
        match scan_string(v, 8) {
            None => None,
            Some((sub, i)) => if !(i + 12 <= v.len() && v.subrange(i, i + 12) == mid_user_id()) {
                None
            } else {
                match scan_string(v, i + 12) {
                    None => None,
                    Some((user_id, j)) => parse_exp_tail(v, j, sub, user_id),
                }
            },
        }
    }
}

/// The shared tail of both payloads: `,"exp":` then digits then `}` at the
/// very end.
pub open spec fn parse_exp_tail(v: Seq<u8>, j: int, first: Seq<u8>, second: Seq<u8>) -> Option<
    (Seq<u8>, Seq<u8>, u64),
> {
    if !(j + 7 <= v.len() && v.subrange(j, j + 7) == mid_exp()) {
        None
    } else {
        let d = scan_digits(v, j + 7);
        if d.len() == 0 || digits_val(d) > u64::MAX {
            None
        } else if j + 7 + d.len() + 1 == v.len() && v[v.len() - 1] == 125 {
            Some((first, second, digits_val(d) as u64))
        } else {
            None
        }
    }
}

/// The parser reads back every serialized access-token claim set.
pub proof fn lemma_parse_access_json(sub: Seq<u8>, email: Seq<u8>, exp: u64)
    ensures
        parse_access_spec(access_json(sub, email, exp)) == Some((sub, email, exp)),
{
    let v = access_json(sub, email, exp);
    let es = json_escape(sub);
    let ee = json_escape(email);
    let d = dec_rep(exp as nat);
    let ne = es.len() as int;
    let nf = ee.len() as int;
    let nd = d.len() as int;
    let i = 8 + ne + 1;
    let j = i + 10 + nf + 1;
    assert(v.subrange(0, 8) =~= sub_prefix());
    assert(v.subrange(8, 8 + ne) =~= es);
    assert(v[8 + ne] == 34);
    lemma_scan_escaped(v, 8, sub);
    assert(v.subrange(i, i + 10) =~= mid_email());
    assert(v.subrange(i + 10, i + 10 + nf) =~= ee);
    assert(v[i + 10 + nf] == 34);
    lemma_scan_escaped(v, i + 10, email);
    assert(v.subrange(j, j + 7) =~= mid_exp());
    lemma_dec_rep_digits(exp as nat);
    assert(v.subrange(j + 7, j + 7 + nd) =~= d);
    assert(v[j + 7 + nd] == 125);
    assert(!is_digit(125u8));
    lemma_scan_digits_at(v, j + 7, d);
    lemma_dec_rep_val(exp as nat);
    assert(j + 7 + nd + 1 == v.len());
    assert(v[v.len() - 1] == 125);
}

/// The parser reads back every serialized refresh-token claim set.
pub proof fn lemma_parse_refresh_json(sub: Seq<u8>, user_id: Seq<u8>, exp: u64)
    ensures
        parse_refresh_spec(refresh_json(sub, user_id, exp)) == Some((sub, user_id, exp)),
{
    let v = refresh_json(sub, user_id, exp);
    let es = json_escape(sub);
    let eu = json_escape(user_id);
    let d = dec_rep(exp as nat);
    let ne = es.len() as int;
    let nf = eu.len() as int;
    let nd = d.len() as int;
    let i = 8 + ne + 1;
    let j = i + 12 + nf + 1;
    assert(v.subrange(0, 8) =~= sub_prefix());
    assert(v.subrange(8, 8 + ne) =~= es);
    assert(v[8 + ne] == 34);
    lemma_scan_escaped(v, 8, sub);
    assert(v.subrange(i, i + 12) =~= mid_user_id());
    assert(v.subrange(i + 12, i + 12 + nf) =~= eu);
    assert(v[i + 12 + nf] == 34);
    lemma_scan_escaped(v, i + 12, user_id);
    assert(v.subrange(j, j + 7) =~= mid_exp());
    lemma_dec_rep_digits(exp as nat);
    assert(v.subrange(j + 7, j + 7 + nd) =~= d);
    assert(v[j + 7 + nd] == 125);
    assert(!is_digit(125u8));
    lemma_scan_digits_at(v, j + 7, d);
    lemma_dec_rep_val(exp as nat);
    assert(j + 7 + nd + 1 == v.len());
    assert(v[v.len() - 1] == 125);
}

/// Append one byte sequence to another.
pub(crate) fn push_all(out: &mut Vec<u8>, v: &Vec<u8>)
    ensures
        final(out)@ == old(out)@ + v@,
{
    let n = v.len();
    let mut i: usize = 0;
    while i < n
        invariant
            i <= n,
            n == v@.len(),
            out@ == old(out)@ + v@.take(i as int),
        decreases n - i,
    {
        out.push(v[i]);
        i = i + 1;
        proof {
            assert(old(out)@ + v@.take(i as int) =~= (old(out)@ + v@.take(i - 1)).push(
                v@[i - 1],
            ));
        }
    }
    proof {
        assert(v@.take(n as int) =~= v@);
    }
}

/// Append a byte sequence in its JSON-escaped form.
fn push_escaped(out: &mut Vec<u8>, s: &Vec<u8>)
    ensures
        final(out)@ == old(out)@ + json_escape(s@),
{
    let n = s.len();
    let mut i: usize = 0;
    assert(json_escape(s@.take(0)) =~= Seq::<u8>::empty());
    assert(out@ =~= old(out)@ + json_escape(s@.take(0)));
    while i < n
        invariant
            i <= n,
            n == s@.len(),
            out@ == old(out)@ + json_escape(s@.take(i as int)),
        decreases n - i,
    {
        let b = s[i];
        let ghost prev = out@;
        if b == 34 || b == 92 {
            out.push(92);
            out.push(b);
        } else {
            out.push(b);
        }
        i = i + 1;
        proof {
            lemma_escape_append(s@.take(i - 1), b);
            assert(s@.take(i - 1).push(b) =~= s@.take(i as int));
            assert(out@ =~= prev + esc1(b));
            assert(prev + esc1(b) =~= old(out)@ + (json_escape(s@.take(i - 1)) + esc1(b)));
        }
    }
    proof {
        assert(s@.take(n as int) =~= s@);
    }
}

/// Append a number's decimal digits.
fn push_decimal(out: &mut Vec<u8>, n: u64)
    ensures
        final(out)@ == old(out)@ + dec_rep(n as nat),
    decreases n,
{
    if n < 10 {
        out.push(48 + n as u8);
        proof {
            assert(old(out)@ + dec_rep(n as nat) =~= old(out)@.push((48 + n) as u8));
        }
    } else {
        push_decimal(out, n / 10);
        out.push(48 + (n % 10) as u8);
        proof {
            assert(old(out)@ + dec_rep(n as nat) =~= (old(out)@ + dec_rep((n / 10) as nat)).push(
                (48 + n % 10) as u8,
            ));
        }
    }
}

/// Serialize access-token claims to their JSON payload bytes.
pub fn access_json_bytes(sub: &Vec<u8>, email: &Vec<u8>, exp: u64) -> (r: Vec<u8>)
    ensures
        r@ == access_json(sub@, email@, exp),
{
    let mut out: Vec<u8> = vec![123u8, 34, 115, 117, 98, 34, 58, 34];
    assert(out@ =~= sub_prefix());
    push_escaped(&mut out, sub);
    out.push(34);
    let mid1: Vec<u8> = vec![44u8, 34, 101, 109, 97, 105, 108, 34, 58, 34];
    assert(mid1@ =~= mid_email());
    push_all(&mut out, &mid1);
    push_escaped(&mut out, email);
    out.push(34);
    let mid2: Vec<u8> = vec![44u8, 34, 101, 120, 112, 34, 58];
    assert(mid2@ =~= mid_exp());
    push_all(&mut out, &mid2);
    push_decimal(&mut out, exp);
    out.push(125);
    proof {
        assert(out@ =~= access_json(sub@, email@, exp));
    }
    out
}

/// Serialize refresh-token claims to their JSON payload bytes.
pub fn refresh_json_bytes(sub: &Vec<u8>, user_id: &Vec<u8>, exp: u64) -> (r: Vec<u8>)
    ensures
        r@ == refresh_json(sub@, user_id@, exp),
{
    let mut out: Vec<u8> = vec![123u8, 34, 115, 117, 98, 34, 58, 34];
    assert(out@ =~= sub_prefix());
    push_escaped(&mut out, sub);
    out.push(34);
    let mid1: Vec<u8> = vec![44u8, 34, 117, 115, 101, 114, 95, 105, 100, 34, 58, 34];
    assert(mid1@ =~= mid_user_id());
    push_all(&mut out, &mid1);
    push_escaped(&mut out, user_id);
    out.push(34);
    let mid2: Vec<u8> = vec![44u8, 34, 101, 120, 112, 34, 58];
    assert(mid2@ =~= mid_exp());
    push_all(&mut out, &mid2);
    push_decimal(&mut out, exp);
    out.push(125);
    proof {
        assert(out@ =~= refresh_json(sub@, user_id@, exp));
    }
    out
}

/// Whether the bytes of `w` stand in `v` at position `i`.
fn match_at(v: &Vec<u8>, i: usize, w: &Vec<u8>) -> (r: bool)
    requires
        i <= v@.len(),
    ensures
        r == (i + w@.len() <= v@.len() && v@.subrange(i as int, i + w@.len()) == w@),
{
    let m = w.len();
    let n = v.len();
    if n - i < m {
        proof {
            assert(i + w@.len() > v@.len());
        }
        return false;
    }
    let mut k: usize = 0;
    while k < m
        invariant
            k <= m,
            m == w@.len(),
            n == v@.len(),
            i + m <= n,
            forall|t: int| 0 <= t < k ==> v@[i + t] == w@[t],
        decreases m - k,
    {
        if v[i + k] != w[k] {
            proof {
                assert(v@.subrange(i as int, i + w@.len())[k as int] == v@[i + k]);
            }
            return false;
        }
        k = k + 1;
    }
    proof {
        assert(v@.subrange(i as int, i + w@.len()) =~= w@);
    }
    true
}

/// Read a JSON string at a position, returning its unescaped bytes and the
/// position past its closing quote.
fn scan_string_exec(v: &Vec<u8>, start: usize) -> (r: Option<(Vec<u8>, usize)>)
    ensures
        match r {
            Some(p) => scan_string(v@, start as int) == Some((p.0@, p.1 as int)) && start < p.1
                <= v@.len(),
            None => scan_string(v@, start as int) is None,
        },
{
    let n = v.len();
    let mut acc: Vec<u8> = Vec::new();
    let mut i: usize = start;
    if i >= n {
        return None;
    }
    proof {
        assert forall|s: Seq<u8>, j: int|
            scan_string(v@, i as int) == Some((s, j)) implies scan_string(v@, start as int)
            == Some((acc@ + s, j)) by {
            assert(acc@ + s =~= s);
        }
    }
    while i < n
        invariant
            start <= i <= n,
            n == v@.len(),
            forall|s: Seq<u8>, j: int|
                scan_string(v@, i as int) == Some((s, j)) ==> scan_string(v@, start as int)
                    == Some((acc@ + s, j)),
            scan_string(v@, i as int) is None ==> scan_string(v@, start as int) is None,
        decreases n - i,
    {
        let b = v[i];
        if b == 34 {
            proof {
                assert(scan_string(v@, i as int) == Some((Seq::<u8>::empty(), i + 1)));
                assert(acc@ + Seq::<u8>::empty() =~= acc@);
            }
            return Some((acc, i + 1));
        } else if b == 92 {
            if i + 1 >= n || (v[i + 1] != 34 && v[i + 1] != 92) {
                proof {
                    assert(scan_string(v@, i as int) is None);
                }
                return None;
            }
            let ghost prev = acc@;
            acc.push(v[i + 1]);
            let ghost iold = i as int;
            i = i + 2;
            proof {
                assert forall|s: Seq<u8>, j: int|
                    scan_string(v@, i as int) == Some((s, j)) implies scan_string(
                    v@,
                    start as int,
                ) == Some((acc@ + s, j)) by {
                    assert(scan_string(v@, iold) == Some((seq![v@[iold + 1]] + s, j)));
                    assert(prev + (seq![v@[iold + 1]] + s) =~= acc@ + s);
                }
            }
        } else {
            let ghost prev = acc@;
            acc.push(b);
            let ghost iold = i as int;
            i = i + 1;
            proof {
                assert forall|s: Seq<u8>, j: int|
                    scan_string(v@, i as int) == Some((s, j)) implies scan_string(
                    v@,
                    start as int,
                ) == Some((acc@ + s, j)) by {
                    assert(scan_string(v@, iold) == Some((seq![v@[iold]] + s, j)));
                    assert(prev + (seq![v@[iold]] + s) =~= acc@ + s);
                }
            }
        }
    }
    proof {
        assert(scan_string(v@, i as int) is None);
    }
    None
}

/// Read a decimal number at a position, returning its value and the
/// position past its digits.
fn scan_u64_exec(v: &Vec<u8>, start: usize) -> (r: Option<(u64, usize)>)
    requires
        start <= v@.len(),
    ensures
        match r {
            Some(p) => {
                let d = scan_digits(v@, start as int);
                d.len() > 0 && digits_val(d) <= u64::MAX && p.0 as nat == digits_val(d) && p.1
                    == start + d.len() && p.1 <= v@.len()
            },
            None => {
                let d = scan_digits(v@, start as int);
                d.len() == 0 || digits_val(d) > u64::MAX
            },
        },
{
    let n = v.len();
    let ghost d = scan_digits(v@, start as int);
    let mut i: usize = start;
    let mut acc: u64 = 0;
    proof {
        assert(v@.subrange(start as int, start as int) =~= Seq::<u8>::empty());
    }
    while i < n && 48 <= v[i] && v[i] <= 57
        invariant
            start <= i <= n,
            n == v@.len(),
            d == scan_digits(v@, start as int),
            forall|t: int| start <= t < i ==> is_digit(#[trigger] v@[t]),
            d == v@.subrange(start as int, i as int) + scan_digits(v@, i as int),
            acc as nat == digits_val(v@.subrange(start as int, i as int)),
        decreases n - i,
    {
        let b = v[i];
        let step = match acc.checked_mul(10) {
            Some(m) => m.checked_add((b - 48) as u64),
            None => None,
        };
        match step {
            Some(next) => {
                acc = next;
            },
            None => {
                proof {
                    let run = v@.subrange(start as int, i as int).push(v@[i as int]);
                    assert(run.drop_last() =~= v@.subrange(start as int, i as int));
                    assert(digits_val(run) > u64::MAX);
                    assert(run =~= v@.subrange(start as int, i + 1));
                    assert(forall|k: int| 0 <= k < d.len() ==> is_digit(#[trigger] d[k])) by {
                        lemma_scan_digits_all(v@, start as int);
                    }
                    lemma_digits_val_take(d, i + 1 - start);
                    assert(d.take(i + 1 - start) =~= run);
                }
                return None;
            },
        }
        let ghost iold = i as int;
        i = i + 1;
        proof {
            let pre = v@.subrange(start as int, iold);
            let run = v@.subrange(start as int, i as int);
            assert(run =~= pre.push(v@[iold]));
            assert(run.drop_last() =~= pre);
            assert(scan_digits(v@, iold) == seq![v@[iold]] + scan_digits(v@, i as int));
            assert(pre + (seq![v@[iold]] + scan_digits(v@, i as int)) =~= run + scan_digits(
                v@,
                i as int,
            ));
        }
    }
    proof {
        assert(scan_digits(v@, i as int) =~= Seq::<u8>::empty());
        assert(d =~= v@.subrange(start as int, i as int));
    }
    if i == start {
        None
    } else {
        Some((acc, i))
    }
}

/// Every byte the digit scan returns is a digit.
proof fn lemma_scan_digits_all(v: Seq<u8>, i: int)
    ensures
        forall|k: int|
            0 <= k < scan_digits(v, i).len() ==> is_digit(#[trigger] scan_digits(v, i)[k]),
    decreases v.len() - i,
{
    if !(i < 0 || i >= v.len() || !is_digit(v[i])) {
        lemma_scan_digits_all(v, i + 1);
        assert forall|k: int|
            0 <= k < scan_digits(v, i).len() implies is_digit(#[trigger] scan_digits(v, i)[k]) by {
            if k > 0 {
                assert(scan_digits(v, i)[k] == scan_digits(v, i + 1)[k - 1]);
            }
        }
    }
}

/// Parse an access-token JSON payload; accepts exactly what
/// `parse_access_spec` accepts.
pub fn parse_access_json(v: &Vec<u8>) -> (r: Option<AccessTokenClaims>)
    ensures
        match r {
            Some(c) => parse_access_spec(v@) == Some((c.sub@, c.email@, c.exp)),
            None => parse_access_spec(v@) is None,
        },
{
    let prefix: Vec<u8> = vec![123u8, 34, 115, 117, 98, 34, 58, 34];
    assert(prefix@ =~= sub_prefix());
    if v.len() < 8 || !match_at(v, 0, &prefix) {
        proof {
            if v@.len() >= 8 {
                assert(v@.subrange(0, 8) != sub_prefix());
            }
        }
        return None;
    }
    let (sub, i) = match scan_string_exec(v, 8) {
        Some(p) => p,
        None => {
            return None;
        },
    };
    let mid1: Vec<u8> = vec![44u8, 34, 101, 109, 97, 105, 108, 34, 58, 34];
    assert(mid1@ =~= mid_email());
    if !match_at(v, i, &mid1) {
        return None;
    }
    let (email, j) = match scan_string_exec(v, i + 10) {
        Some(p) => p,
        None => {
            return None;
        },
    };
    match finish_exp_tail(v, j) {
        Some(exp) => Some(AccessTokenClaims { sub, email, exp }),
        None => None,
    }
}

/// Parse a refresh-token JSON payload; accepts exactly what
/// `parse_refresh_spec` accepts.
pub fn parse_refresh_json(v: &Vec<u8>) -> (r: Option<RefreshTokenClaims>)
    ensures
        match r {
            Some(c) => parse_refresh_spec(v@) == Some((c.sub@, c.user_id@, c.exp)),
            None => parse_refresh_spec(v@) is None,
        },
{
    let prefix: Vec<u8> = vec![123u8, 34, 115, 117, 98, 34, 58, 34];
    assert(prefix@ =~= sub_prefix());
    if v.len() < 8 || !match_at(v, 0, &prefix) {
        proof {
            if v@.len() >= 8 {
                assert(v@.subrange(0, 8) != sub_prefix());
            }
        }
        return None;
    }
    let (sub, i) = match scan_string_exec(v, 8) {
        Some(p) => p,
        None => {
            return None;
        },
    };
    let mid1: Vec<u8> = vec![44u8, 34, 117, 115, 101, 114, 95, 105, 100, 34, 58, 34];
    assert(mid1@ =~= mid_user_id());
    if !match_at(v, i, &mid1) {
        return None;
    }
    let (user_id, j) = match scan_string_exec(v, i + 12) {
        Some(p) => p,
        None => {
            return None;
        },
    };
    match finish_exp_tail(v, j) {
        Some(exp) => Some(RefreshTokenClaims { sub, user_id, exp }),
        None => None,
    }
}

/// Parse the shared payload tail `,"exp":<digits>}` that must close the
/// object exactly at the end of the input.
fn finish_exp_tail(v: &Vec<u8>, j: usize) -> (r: Option<u64>)
    requires
        j <= v@.len(),
    ensures
        match r {
            Some(exp) => forall|a: Seq<u8>, b: Seq<u8>|
                parse_exp_tail(v@, j as int, a, b) == Some((a, b, exp)),
            None => forall|a: Seq<u8>, b: Seq<u8>| parse_exp_tail(v@, j as int, a, b) is None,
        },
{
    let n = v.len();
    let mid2: Vec<u8> = vec![44u8, 34, 101, 120, 112, 34, 58];
    assert(mid2@ =~= mid_exp());
    if !match_at(v, j, &mid2) {
        return None;
    }
    assert(j + 7 <= n);
    let (exp, k) = match scan_u64_exec(v, j + 7) {
        Some(p) => p,
        None => {
            return None;
        },
    };
    assert(k <= n);
    if n - k == 1 && v[k] == 125 {
        proof {
            let d = scan_digits(v@, j + 7);
            assert(v@[v@.len() - 1] == 125);
        }
        Some(exp)
    } else {
        None
    }
}

} // verus!
