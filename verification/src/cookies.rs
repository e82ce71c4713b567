//! The cookie jar: the cookies a request arrived with, the changes made
//! while handling it, and the delta that must go back to the client.
//!
//! A jar starts from the request's raw Cookie header, parsed best-effort;
//! adds and removals accumulate as changes keyed by cookie name; the delta
//! is exactly the changes that differ from the original snapshot.
use vstd::prelude::*;

verus! {

use crate::util::{copy_bytes, subvec};

/// One named cookie with its attributes. A change entry whose `max_age` is
/// zero or negative marks the cookie for deletion.
pub struct Cookie {
    pub name: Vec<u8>,
    pub value: Vec<u8>,
    pub domain: Vec<u8>,
    pub path: Vec<u8>,
    pub max_age: i64,
    pub secure: bool,
    pub http_only: bool,
}

/// The mathematical value of a cookie.
#[verifier::ext_equal]
pub struct CookieData {
    pub name: Seq<u8>,
    pub value: Seq<u8>,
    pub domain: Seq<u8>,
    pub path: Seq<u8>,
    pub max_age: int,
    pub secure: bool,
    pub http_only: bool,
}

impl View for Cookie {
    type V = CookieData;

    open spec fn view(&self) -> CookieData {
        CookieData {
            name: self.name@,
            value: self.value@,
            domain: self.domain@,
            path: self.path@,
            max_age: self.max_age as int,
            secure: self.secure,
            http_only: self.http_only,
        }
    }
}

impl Cookie {
    /// Field-for-field copy.
    pub fn duplicate(&self) -> (r: Cookie)
        ensures
            r@ == self@,
    {
        let r = Cookie {
            name: copy_bytes(&self.name),
            value: copy_bytes(&self.value),
            domain: copy_bytes(&self.domain),
            path: copy_bytes(&self.path),
            max_age: self.max_age,
            secure: self.secure,
            http_only: self.http_only,
        };
        proof {
            assert(r@ =~= self@);
        }
        r
    }
}

/// The values of a cookie list.
pub open spec fn views(s: Seq<Cookie>) -> Seq<CookieData> {
    s.map_values(|c: Cookie| c@)
}

/// The first cookie of a given name in a list.
pub open spec fn find_cookie(s: Seq<CookieData>, name: Seq<u8>) -> Option<CookieData>
    decreases s.len(),
{
    if s.len() == 0 {
        None
    } else if s[0].name == name {
        Some(s[0])
    } else {
        find_cookie(s.skip(1), name)
    }
}

/// No two cookies of a list share a name.
pub open spec fn names_unique(s: Seq<CookieData>) -> bool {
    forall|i: int, j: int| 0 <= i < j < s.len() ==> s[i].name != s[j].name
}

/// A list with a cookie set: the first entry of the same name is replaced,
/// else the cookie is appended.
pub open spec fn upsert(s: Seq<CookieData>, c: CookieData) -> Seq<CookieData>
    decreases s.len(),
{
    if s.len() == 0 {
        seq![c]
    } else if s[0].name == c.name {
        seq![c] + s.skip(1)
    } else {
        seq![s[0]] + upsert(s.skip(1), c)
    }
}

/// When the match sits at a known first position, upsert is an update.
proof fn lemma_upsert_at(s: Seq<CookieData>, c: CookieData, i: int)
    requires
        0 <= i < s.len(),
        s[i].name == c.name,
        forall|j: int| 0 <= j < i ==> s[j].name != c.name,
    ensures
        upsert(s, c) == s.update(i, c),
    decreases i,
{
    if i == 0 {
        assert(upsert(s, c) =~= s.update(0, c));
    } else {
        lemma_upsert_at(s.skip(1), c, i - 1);
        assert(seq![s[0]] + s.skip(1).update(i - 1, c) =~= s.update(i, c));
    }
}

/// When no name matches, upsert appends.
proof fn lemma_upsert_none(s: Seq<CookieData>, c: CookieData)
    requires
        forall|j: int| 0 <= j < s.len() ==> s[j].name != c.name,
    ensures
        upsert(s, c) == s.push(c),
    decreases s.len(),
{
    if s.len() == 0 {
        assert(upsert(s, c) =~= s.push(c));
    } else {
        lemma_upsert_none(s.skip(1), c);
        assert(seq![s[0]] + s.skip(1).push(c) =~= s.push(c));
    }
}

/// The first match of a name, as an index.
proof fn lemma_find_at(s: Seq<CookieData>, name: Seq<u8>, i: int)
    requires
        0 <= i < s.len(),
        s[i].name == name,
        forall|j: int| 0 <= j < i ==> s[j].name != name,
    ensures
        find_cookie(s, name) == Some(s[i]),
    decreases i,
{
    if i > 0 {
        lemma_find_at(s.skip(1), name, i - 1);
    }
}

/// A name that no entry carries is not found.
proof fn lemma_find_none(s: Seq<CookieData>, name: Seq<u8>)
    requires
        forall|j: int| 0 <= j < s.len() ==> s[j].name != name,
    ensures
        find_cookie(s, name) is None,
    decreases s.len(),
{
    if s.len() > 0 {
        lemma_find_none(s.skip(1), name);
    }
}

/// Whether a change entry must be sent to the client: it differs from the
/// original snapshot (added, changed value, or removing a cookie that the
/// request carried).
pub open spec fn differs_from_original(originals: Seq<CookieData>, c: CookieData) -> bool {
    match find_cookie(originals, c.name) {
        None => c.max_age > 0,
        Some(o) => c.max_age <= 0 || o.value != c.value,
    }
}

/// The changes that differ from the original snapshot, in order.
pub open spec fn delta_of(originals: Seq<CookieData>, changes: Seq<CookieData>) -> Seq<CookieData>
    decreases changes.len(),
{
    if changes.len() == 0 {
        Seq::empty()
    } else {
        let rest = delta_of(originals, changes.skip(1));
        if differs_from_original(originals, changes[0]) {
            seq![changes[0]] + rest
        } else {
            rest
        }
    }
}

/// The mathematical value of a jar.
#[verifier::ext_equal]
pub struct JarData {
    pub originals: Seq<CookieData>,
    pub changes: Seq<CookieData>,
}

/// A request's cookies and the changes made while handling it.
pub struct Jar {
    originals: Vec<Cookie>,
    changes: Vec<Cookie>,
}

impl View for Jar {
    type V = JarData;

    closed spec fn view(&self) -> JarData {
        JarData { originals: views(self.originals@), changes: views(self.changes@) }
    }
}

/// What a cookie named in the request looks like in the jar: only its name
/// and value are known.
pub open spec fn original_cookie(name: Seq<u8>, value: Seq<u8>) -> CookieData {
    CookieData {
        name,
        value,
        domain: Seq::empty(),
        path: Seq::empty(),
        max_age: 0,
        secure: false,
        http_only: false,
    }
}

/// The value a jar holds under a name: a change wins over the original
/// snapshot, and a removal change hides the cookie.
pub open spec fn jar_get(j: JarData, name: Seq<u8>) -> Option<Seq<u8>> {
    match find_cookie(j.changes, name) {
        Some(c) => if c.max_age <= 0 {
            None
        } else {
            Some(c.value)
        },
        None => match find_cookie(j.originals, name) {
            Some(o) => Some(o.value),
            None => None,
        },
    }
}

/// Set a cookie in a plain list: replace the first entry of the same name,
/// else append.
fn upsert_into(list: &mut Vec<Cookie>, c: Cookie)
    requires
        names_unique(views(old(list)@)),
    ensures
        names_unique(views(final(list)@)),
        views(final(list)@) == upsert(views(old(list)@), c@),
{
    let ghost before = views(list@);
    let ghost cd = c@;
    match find_in(list, &c.name) {
        Some(i) => {
            let ghost ii = i as int;
            proof {
                lemma_upsert_at(before, cd, ii);
            }
            let _ = list.remove(i);
            list.insert(i, c);
            proof {
                let after = views(list@);
                assert(after =~= before.update(ii, cd));
                assert(cd.name == before[ii].name);
                assert forall|k: int| 0 <= k < after.len() implies after[k].name
                    == before[k].name by {
                    if k == ii {
                        assert(after[k].name == cd.name);
                    }
                }
                assert forall|a: int, b: int|
                    0 <= a < b < after.len() implies after[a].name != after[b].name by {
                    assert(after[a].name == before[a].name);
                    assert(after[b].name == before[b].name);
                }
            }
        },
        None => {
            proof {
                lemma_upsert_none(before, cd);
            }
            list.push(c);
            proof {
                let after = views(list@);
                assert(after =~= before.push(cd));
                assert forall|a: int, b: int|
                    0 <= a < b < after.len() implies after[a].name != after[b].name by {
                    if b < before.len() {
                        assert(before[a].name != before[b].name);
                    } else {
                        assert(after[b].name == cd.name);
                        assert(before[a].name != cd.name);
                    }
                }
            }
        },
    }
}

/// Find the first cookie of a name in a list, as an index.
fn find_in(list: &Vec<Cookie>, name: &Vec<u8>) -> (r: Option<usize>)
    ensures
        match r {
            Some(i) => i < list@.len() && list@[i as int]@.name == name@ && find_cookie(
                views(list@),
                name@,
            ) == Some(list@[i as int]@) && forall|j: int|
                0 <= j < i ==> views(list@)[j].name != name@,
            None => find_cookie(views(list@), name@) is None && forall|j: int|
                0 <= j < list@.len() ==> views(list@)[j].name != name@,
        },
{
    let n = list.len();
    let mut i: usize = 0;
    while i < n
        invariant
            i <= n,
            n == list@.len(),
            forall|j: int| 0 <= j < i ==> views(list@)[j].name != name@,
        decreases n - i,
    {
        if crate::util::bytes_eq(&list[i].name, name) {
            proof {
                lemma_find_at(views(list@), name@, i as int);
            }
            return Some(i);
        }
        i = i + 1;
    }
    proof {
        lemma_find_none(views(list@), name@);
    }
    None
}

impl Jar {
    /// Both lists keep at most one entry per cookie name.
    pub open spec fn wf(&self) -> bool {
        names_unique(self@.originals) && names_unique(self@.changes)
    }

    /// An empty jar.
    pub fn new() -> (r: Jar)
        ensures
            r.wf(),
            r@.originals.len() == 0,
            r@.changes.len() == 0,
    {
        let r = Jar { originals: Vec::new(), changes: Vec::new() };
        proof {
            assert(r@.originals =~= Seq::<CookieData>::empty());
            assert(r@.changes =~= Seq::<CookieData>::empty());
        }
        r
    }

    /// The value under a name, if the jar still holds one.
    pub fn get(&self, name: &Vec<u8>) -> (r: Option<Vec<u8>>)
        ensures
            match r {
                Some(v) => jar_get(self@, name@) == Some(v@),
                None => jar_get(self@, name@) is None,
            },
    {
        match find_in(&self.changes, name) {
            Some(i) => {
                if self.changes[i].max_age <= 0 {
                    None
                } else {
                    Some(copy_bytes(&self.changes[i].value))
                }
            },
            None => match find_in(&self.originals, name) {
                Some(i) => Some(copy_bytes(&self.originals[i].value)),
                None => None,
            },
        }
    }

    /// Set a cookie: recorded as a change, overwriting any change of the
    /// same name.
    pub fn add(&mut self, c: Cookie)
        requires
            old(self).wf(),
        ensures
            final(self).wf(),
            final(self)@.originals == old(self)@.originals,
            final(self)@.changes == upsert(old(self)@.changes, c@),
    {
        upsert_into(&mut self.changes, c);
        proof {
            assert(final(self)@.originals =~= old(self)@.originals);
        }
    }

    /// Mark a cookie for deletion: a change with an empty value and a
    /// non-positive max-age.
    pub fn remove(&mut self, name: Vec<u8>)
        requires
            old(self).wf(),
        ensures
            final(self).wf(),
            final(self)@.originals == old(self)@.originals,
            final(self)@.changes == upsert(old(self)@.changes, removal_cookie(name@)),
    {
        let c = Cookie {
            name,
            value: Vec::new(),
            domain: Vec::new(),
            path: Vec::new(),
            max_age: 0,
            secure: true,
            http_only: true,
        };
        proof {
            assert(c@ =~= removal_cookie(c.name@));
        }
        self.add(c);
    }

    /// The cookies that must be sent back: every change that differs from
    /// the original snapshot.
    pub fn delta(&self) -> (r: Vec<Cookie>)
        ensures
            views(r@) == delta_of(self@.originals, self@.changes),
    {
        let n = self.changes.len();
        let mut out: Vec<Cookie> = Vec::new();
        let mut i: usize = 0;
        proof {
            assert(views(self.changes@).skip(0) =~= views(self.changes@));
            assert(views(out@) =~= Seq::<CookieData>::empty());
        }
        while i < n
            invariant
                i <= n,
                n == self.changes@.len(),
                delta_of(self@.originals, self@.changes) == views(out@) + delta_of(
                    self@.originals,
                    self@.changes.skip(i as int),
                ),
            decreases n - i,
        {
            let c = &self.changes[i];
            let ghost rem = self@.changes.skip(i as int);
            let ghost prev = views(out@);
            let send: bool = match find_in(&self.originals, &c.name) {
                Some(oi) => c.max_age <= 0 || !crate::util::bytes_eq(
                    &self.originals[oi].value,
                    &c.value,
                ),
                None => c.max_age > 0,
            };
            proof {
                assert(rem[0] == self@.changes[i as int]);
                assert(send == differs_from_original(self@.originals, rem[0]));
                assert(rem.skip(1) =~= self@.changes.skip(i + 1));
            }
            if send {
                out.push(c.duplicate());
                proof {
                    assert(views(out@) =~= prev + seq![rem[0]]);
                    assert((prev + seq![rem[0]]) + delta_of(self@.originals, rem.skip(1)) =~= prev
                        + (seq![rem[0]] + delta_of(self@.originals, rem.skip(1))));
                }
            }
            i = i + 1;
        }
        proof {
            assert(self@.changes.skip(n as int) =~= Seq::<CookieData>::empty());
            assert(views(out@) + Seq::<CookieData>::empty() =~= views(out@));
        }
        out
    }
}

/// The change entry that `remove` records for a name.
pub open spec fn removal_cookie(name: Seq<u8>) -> CookieData {
    CookieData {
        name,
        value: Seq::empty(),
        domain: Seq::empty(),
        path: Seq::empty(),
        max_age: 0,
        secure: true,
        http_only: true,
    }
}

/// The position of the first occurrence of a byte at or after a position;
/// the length when there is none.
pub open spec fn first_at(v: Seq<u8>, i: int, b: u8) -> int
    decreases v.len() - i,
{
    if i < 0 || i >= v.len() {
        v.len() as int
    } else if v[i] == b {
        i
    } else {
        first_at(v, i + 1, b)
    }
}

/// A sequence with its leading spaces dropped.
pub open spec fn skip_spaces(s: Seq<u8>) -> Seq<u8>
    decreases s.len(),
{
    if s.len() > 0 && s[0] == 32 {
        skip_spaces(s.skip(1))
    } else {
        s
    }
}

/// One `name=value` piece of a Cookie header: leading spaces dropped, split
/// at the first equals sign; a piece without one, or with an empty name, is
/// ignored.
pub open spec fn parse_segment(seg: Seq<u8>) -> Option<(Seq<u8>, Seq<u8>)> {
    let t = skip_spaces(seg);
    let e = first_at(t, 0, 61);
    if e == t.len() || e == 0 {
        None
    } else {
        Some((t.subrange(0, e), t.subrange(e + 1, t.len() as int)))
    }
}

/// The cookies of a raw Cookie header, reading the semicolon-separated
/// pieces left to right.
pub open spec fn header_cookies(h: Seq<u8>, i: int) -> Seq<CookieData>
    decreases h.len() - i,
{
    if i < 0 || i >= h.len() {
        Seq::empty()
    } else {
        let cut = first_at(h, i, 59);
        let stop = if cut < i {
            i
        } else if cut > h.len() {
            h.len() as int
        } else {
            cut
        };
        let here = match parse_segment(h.subrange(i, stop)) {
            Some(p) => seq![original_cookie(p.0, p.1)],
            None => Seq::<CookieData>::empty(),
        };
        if stop >= h.len() {
            here
        } else {
            here + header_cookies(h, stop + 1)
        }
    }
}

/// A list with several cookies set in order; a later one of a name
/// overrides an earlier one.
pub open spec fn upsert_all(s: Seq<CookieData>, cs: Seq<CookieData>) -> Seq<CookieData>
    decreases cs.len(),
{
    if cs.len() == 0 {
        s
    } else {
        upsert_all(upsert(s, cs[0]), cs.skip(1))
    }
}

/// The position of the first occurrence of a byte at or after `start`, or
/// the length.
fn find_at_exec(v: &Vec<u8>, start: usize, b: u8) -> (r: usize)
    requires
        start <= v@.len(),
    ensures
        r as int == first_at(v@, start as int, b),
        start <= r <= v@.len(),
{
    let n = v.len();
    let mut i: usize = start;
    while i < n
        invariant
            start <= i <= n,
            n == v@.len(),
            first_at(v@, start as int, b) == first_at(v@, i as int, b),
        decreases n - i,
    {
        if v[i] == b {
            return i;
        }
        i = i + 1;
    }
    n
}

/// The index where the leading spaces end.
fn skip_spaces_exec(v: &Vec<u8>) -> (r: usize)
    ensures
        r <= v@.len(),
        skip_spaces(v@) == v@.skip(r as int),
{
    let n = v.len();
    let mut i: usize = 0;
    proof {
        assert(v@.skip(0) =~= v@);
    }
    while i < n && v[i] == 32
        invariant
            i <= n,
            n == v@.len(),
            skip_spaces(v@) == skip_spaces(v@.skip(i as int)),
        decreases n - i,
    {
        let ghost iold = i as int;
        i = i + 1;
        proof {
            assert(v@.skip(iold).len() > 0 && v@.skip(iold)[0] == 32);
            assert(v@.skip(iold).skip(1) =~= v@.skip(i as int));
        }
    }
    proof {
        if i < n {
            assert(v@.skip(i as int)[0] == v@[i as int]);
        }
        assert(skip_spaces(v@.skip(i as int)) == v@.skip(i as int));
    }
    i
}

impl Jar {
    /// Seed a jar from a request's raw Cookie header, best effort: pieces
    /// without an equals sign or with an empty name are skipped, and of two
    /// pieces with one name the later wins. A missing or malformed header
    /// yields an empty jar, never an error.
    pub fn from_request(header: &Vec<u8>) -> (jar: Jar)
        ensures
            jar.wf(),
            jar@.changes.len() == 0,
            jar@.originals == upsert_all(Seq::empty(), header_cookies(header@, 0)),
    {
        let n = header.len();
        let mut originals: Vec<Cookie> = Vec::new();
        let mut i: usize = 0;
        let ghost target = upsert_all(Seq::empty(), header_cookies(header@, 0));
        proof {
            assert(views(originals@) =~= Seq::<CookieData>::empty());
        }
        while i < n
            invariant
                i <= n,
                n == header@.len(),
                names_unique(views(originals@)),
                upsert_all(views(originals@), header_cookies(header@, i as int)) == target,
            decreases n - i,
        {
            let ghost iold = i as int;
            let cut = find_at_exec(header, i, 59);
            let seg0 = subvec(header, i, cut);
            let sp = skip_spaces_exec(&seg0);
            let t = subvec(&seg0, sp, seg0.len());
            proof {
                assert(t@ =~= seg0@.skip(sp as int));
            }
            let e = find_at_exec(&t, 0, 61);
            let ghost here = header_cookies(header@, iold);
            proof {
                assert(header_cookies(header@, iold) == (match parse_segment(
                    header@.subrange(iold, cut as int),
                ) {
                    Some(p) => seq![original_cookie(p.0, p.1)],
                    None => Seq::<CookieData>::empty(),
                }) + (if cut == n {
                    Seq::<CookieData>::empty()
                } else {
                    header_cookies(header@, cut + 1)
                })) by {
                    if cut == n {
                        assert(here + Seq::<CookieData>::empty() =~= here);
                    }
                };
            }
            if e != t.len() && e != 0 {
                let name = subvec(&t, 0, e);
                let value = subvec(&t, e + 1, t.len());
                let c = Cookie {
                    name,
                    value,
                    domain: Vec::new(),
                    path: Vec::new(),
                    max_age: 0,
                    secure: false,
                    http_only: false,
                };
                let ghost before = views(originals@);
                proof {
                    assert(c@ =~= original_cookie(c.name@, c.value@));
                    assert(parse_segment(header@.subrange(iold, cut as int)) == Some(
                        (c.name@, c.value@),
                    ));
                }
                upsert_into(&mut originals, c);
                proof {
                    let rest = if cut == n {
                        Seq::<CookieData>::empty()
                    } else {
                        header_cookies(header@, cut + 1)
                    };
                    assert(header_cookies(header@, iold) == seq![c@] + rest);
                    assert((seq![c@] + rest)[0] == c@);
                    assert((seq![c@] + rest).skip(1) =~= rest);
                    assert(upsert_all(before, seq![c@] + rest) == upsert_all(
                        upsert(before, c@),
                        rest,
                    ));
                }
            } else {
                proof {
                    assert(parse_segment(header@.subrange(iold, cut as int)) is None);
                    let rest = if cut == n {
                        Seq::<CookieData>::empty()
                    } else {
                        header_cookies(header@, cut + 1)
                    };
                    assert(Seq::<CookieData>::empty() + rest =~= rest);
                    assert(header_cookies(header@, iold) == rest);
                }
            }
            if cut == n {
                i = n;
                proof {
                    assert(header_cookies(header@, n as int) =~= Seq::<CookieData>::empty());
                }
            } else {
                i = cut + 1;
            }
        }
        proof {
            assert(header_cookies(header@, i as int) =~= Seq::<CookieData>::empty());
        }
        let jar = Jar { originals, changes: Vec::new() };
        proof {
            assert(jar@.changes =~= Seq::<CookieData>::empty());
        }
        jar
    }
}


/// After setting a cookie, its name looks it up.
pub proof fn lemma_find_upsert_same(s: Seq<CookieData>, c: CookieData)
    ensures
        find_cookie(upsert(s, c), c.name) == Some(c),
    decreases s.len(),
{
    if s.len() == 0 {
        assert(upsert(s, c)[0] == c);
    } else if s[0].name == c.name {
        assert(upsert(s, c)[0] == c);
    } else {
        lemma_find_upsert_same(s.skip(1), c);
        assert(upsert(s, c)[0] == s[0]);
        assert(upsert(s, c).skip(1) =~= upsert(s.skip(1), c));
    }
}

/// Setting a cookie leaves every other name's lookup alone.
pub proof fn lemma_find_upsert_other(s: Seq<CookieData>, c: CookieData, name: Seq<u8>)
    requires
        c.name != name,
    ensures
        find_cookie(upsert(s, c), name) == find_cookie(s, name),
    decreases s.len(),
{
    if s.len() == 0 {
        assert(upsert(s, c)[0] == c);
        assert(upsert(s, c).skip(1) =~= Seq::<CookieData>::empty());
        assert(find_cookie(Seq::<CookieData>::empty(), name) is None);
        assert(find_cookie(upsert(s, c), name) is None);
        assert(find_cookie(s, name) is None);
    } else if s[0].name == c.name {
        assert(upsert(s, c)[0] == c);
        assert(upsert(s, c).skip(1) =~= s.skip(1));
        assert(find_cookie(upsert(s, c), name) == find_cookie(s.skip(1), name));
        assert(find_cookie(s, name) == find_cookie(s.skip(1), name));
    } else {
        lemma_find_upsert_other(s.skip(1), c, name);
        assert(upsert(s, c)[0] == s[0]);
        assert(upsert(s, c).skip(1) =~= upsert(s.skip(1), c));
    }
}

} // verus!
