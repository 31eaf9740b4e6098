//! The store of cookies as a mathematical value: a list of cookies with
//! distinct identities, in the order in which the identities were first
//! stored. What the operations of the store compute is defined here, and
//! what holds of them is proved here.

use vstd::prelude::*;
use crate::cookie_entity::{classified_by, cookie_of_raw, Cookie, CookieKey, CookieView};
use crate::cookie_store::StoreAction;
use crate::error::CookieError;
use crate::raw_cookie::RawCookieView;
use crate::request_url::UrlView;
use crate::runs::{lemma_trailing_run, trailing_run};

verus! {

/// The views of a list of cookies.
pub open spec fn cookie_views(cookies: Seq<Cookie>) -> Seq<CookieView> {
    cookies.map_values(|c: Cookie| c@)
}

/// The views of a list of borrowed cookies.
pub open spec fn borrowed_views(cookies: Seq<&Cookie>) -> Seq<CookieView> {
    cookies.map_values(|c: &Cookie| c@)
}

/// No two cookies of `s` have the same identity.
pub open spec fn distinct_keys(s: Seq<CookieView>) -> bool {
    forall|i: int, j: int|
        0 <= i < j < s.len() ==> (#[trigger] s[i]).key() != (#[trigger] s[j]).key()
}

/// Whether `s` holds a cookie with the identity `key`.
pub open spec fn holds(s: Seq<CookieView>, key: CookieKey) -> bool {
    exists|i: int| 0 <= i < s.len() && (#[trigger] s[i]).key() == key
}

/// Where `s` holds a cookie with the identity `key`, if it holds one.
pub open spec fn position(s: Seq<CookieView>, key: CookieKey) -> int {
    choose|i: int| 0 <= i < s.len() && (#[trigger] s[i]).key() == key
}

/// The cookie of `s` with the identity `key`, if there is one.
pub open spec fn lookup(s: Seq<CookieView>, key: CookieKey) -> Option<CookieView> {
    if holds(s, key) {
        Some(s[position(s, key)])
    } else {
        None
    }
}

/// The store after `cookie` is inserted at `now`.
///
/// Where a cookie with the same identity is held: that one is removed if
/// `cookie` has already ended, else `cookie` takes its place and keeps its
/// creation time. Where none is held: `cookie` is added at the end, unless it
/// has already ended.
pub open spec fn inserted(s: Seq<CookieView>, cookie: CookieView, now: int) -> Seq<CookieView> {
    if holds(s, cookie.key()) {
        let i = position(s, cookie.key());
        if cookie.expired_at(now) {
            s.remove(i)
        } else {
            s.update(i, cookie.created_at(s[i].creation_time))
        }
    } else {
        if cookie.expired_at(now) {
            s
        } else {
            s.push(cookie)
        }
    }
}

/// What the insertion of `cookie` at `now` does to the store.
pub open spec fn insert_action(s: Seq<CookieView>, cookie: CookieView, now: int) -> StoreAction {
    if holds(s, cookie.key()) {
        if cookie.expired_at(now) {
            StoreAction::Removed
        } else {
            StoreAction::Updated
        }
    } else {
        if cookie.expired_at(now) {
            StoreAction::DiscardedExpired
        } else {
            StoreAction::Inserted
        }
    }
}

/// The cookies that have not ended by time at `now`.
pub open spec fn is_live(now: int) -> spec_fn(CookieView) -> bool {
    |c: CookieView| !c.expired_at(now)
}

/// The cookies that go with a request to `url` at `now`: those that match
/// the URL and have not ended.
pub open spec fn is_sendable(url: UrlView, now: int) -> spec_fn(CookieView) -> bool {
    |c: CookieView| c.matches(url) && !c.expired_at(now)
}

/// Whether `a` stands before `b` in a request: the cookie with the longer
/// path does, and of two with paths of one length the one created earlier.
pub open spec fn goes_before(a: CookieView, b: CookieView) -> bool {
    ||| a.path.path.len() > b.path.path.len()
    ||| a.path.path.len() == b.path.path.len() && a.creation_time < b.creation_time
}

/// The cookies that `c` stands before.
pub open spec fn is_after(c: CookieView) -> spec_fn(CookieView) -> bool {
    |e: CookieView| goes_before(c, e)
}

/// `t` with `c` put before the cookies at its end that `c` stands before.
pub open spec fn placed(t: Seq<CookieView>, c: CookieView) -> Seq<CookieView> {
    t.insert(t.len() - trailing_run(t, is_after(c)), c)
}

/// The cookies of `s` in the order of a request: each cookie before those
/// that it stands before, and otherwise in the order of `s`.
pub open spec fn request_order(s: Seq<CookieView>) -> Seq<CookieView>
    decreases s.len(),
{
    if s.len() == 0 {
        s
    } else {
        placed(request_order(s.drop_last()), s.last())
    }
}

/// The cookies that go with a request to `url` at `now`, in the order of the
/// request.
pub open spec fn request_cookies(s: Seq<CookieView>, url: UrlView, now: int) -> Seq<CookieView> {
    request_order(s.filter(is_sendable(url, now)))
}

/// No cookie of `r` stands before one that precedes it.
pub open spec fn in_request_order(r: Seq<CookieView>) -> bool {
    forall|i: int, j: int| 0 <= i < j < r.len() ==> !goes_before(#[trigger] r[j], #[trigger] r[i])
}

/// The store after the cookie with the attributes `raw`, sent from `url`, is
/// received at `now`: unchanged where the cookie is refused.
pub open spec fn raw_inserted(
    s: Seq<CookieView>,
    raw: RawCookieView,
    url: UrlView,
    now: int,
    public_suffix: bool,
) -> Seq<CookieView> {
    match cookie_of_raw(raw, url, now, public_suffix) {
        Ok(c) => inserted(s, c, now),
        Err(_) => s,
    }
}

/// What receiving the cookie with the attributes `raw` does to the store,
/// or why the cookie is refused.
pub open spec fn raw_insert_result(
    s: Seq<CookieView>,
    raw: RawCookieView,
    url: UrlView,
    now: int,
    public_suffix: bool,
) -> Result<StoreAction, CookieError> {
    match cookie_of_raw(raw, url, now, public_suffix) {
        Ok(c) => Ok(insert_action(s, c, now)),
        Err(e) => Err(e),
    }
}

/// The store after the cookies of a response from `url` are received at
/// `now`, one after the other; `public_suffix[i]` is the classifier's answer
/// for the `i`-th of them. A cookie that is refused leaves the store as it
/// is, and the ones after it are still received.
pub open spec fn response_stored(
    s: Seq<CookieView>,
    raws: Seq<RawCookieView>,
    url: UrlView,
    now: int,
    public_suffix: Seq<bool>,
) -> Seq<CookieView>
    decreases raws.len(),
{
    if raws.len() == 0 {
        s
    } else {
        raw_inserted(
            response_stored(s, raws.drop_last(), url, now, public_suffix.drop_last()),
            raws.last(),
            url,
            now,
            public_suffix.last(),
        )
    }
}

/// Whether `public_suffix` holds, for each of the cookies `raws` sent from
/// `url`, what the classifier `is_public_suffix` says of it.
pub open spec fn all_classified_by<F: Fn(&str) -> bool>(
    is_public_suffix: &F,
    raws: Seq<RawCookieView>,
    url: UrlView,
    public_suffix: Seq<bool>,
) -> bool {
    &&& public_suffix.len() == raws.len()
    &&& forall|i: int|
        0 <= i < raws.len() ==> classified_by(
            is_public_suffix,
            #[trigger] raws[i],
            url,
            public_suffix[i],
        )
}

/// The cookies that are written when the store is saved at `now`: those
/// that outlive the session and have not ended.
pub open spec fn is_saved(now: int) -> spec_fn(CookieView) -> bool {
    |c: CookieView| c.persistent() && !c.expired_at(now)
}

/// What is written of the store `s` when it is saved at `now`.
pub open spec fn saved(s: Seq<CookieView>, now: int) -> Seq<CookieView> {
    s.filter(is_saved(now))
}

/// The store that holds `cookies` after they are loaded at `now`, one after
/// the other, into an empty store.
pub open spec fn loaded(cookies: Seq<CookieView>, now: int) -> Seq<CookieView>
    decreases cookies.len(),
{
    if cookies.len() == 0 {
        cookies
    } else {
        inserted(loaded(cookies.drop_last(), now), cookies.last(), now)
    }
}

/// Whether `out` is what `cookie_to_string` may return for a cookie with the
/// value `cookie`.
pub open spec fn encodes_to<E, F: Fn(&Cookie) -> Result<String, E>>(
    cookie_to_string: &F,
    cookie: CookieView,
    out: Result<String, E>,
) -> bool {
    exists|c: &Cookie| c@ == cookie && call_ensures(cookie_to_string, (c,), out)
}

/// Whether `cookie_from_str` may return a cookie with the value `cookie` for
/// the record `line`.
pub open spec fn decodes_to<E, F: Fn(&str) -> Result<Cookie, E>>(
    cookie_from_str: &F,
    line: Seq<char>,
    cookie: CookieView,
) -> bool {
    exists|l: &str, c: Cookie|
        l@ == line && c@ == cookie && call_ensures(cookie_from_str, (l,), Ok::<Cookie, E>(c))
}

/// Whether `cookie_from_str` may fail with `error` on the record `line`.
pub open spec fn fails_on<E, F: Fn(&str) -> Result<Cookie, E>>(
    cookie_from_str: &F,
    line: Seq<char>,
    error: E,
) -> bool {
    exists|l: &str| l@ == line && call_ensures(cookie_from_str, (l,), Err::<Cookie, E>(error))
}

/// Whether `r` is a result of saving the store `s` at `now` with
/// `cookie_to_string`: a record for each cookie of [`saved`], in order, or
/// an error that `cookie_to_string` gave for one of them.
pub open spec fn saved_as<E, F: Fn(&Cookie) -> Result<String, E>>(
    cookie_to_string: &F,
    s: Seq<CookieView>,
    now: int,
    r: Result<Vec<String>, E>,
) -> bool {
    match r {
        Ok(lines) => {
            &&& lines@.len() == saved(s, now).len()
            &&& forall|i: int|
                0 <= i < lines@.len() ==> encodes_to(
                    cookie_to_string,
                    saved(s, now)[i],
                    Ok::<String, E>(#[trigger] lines@[i]),
                )
        },
        Err(e) => exists|i: int|
            0 <= i < saved(s, now).len() && encodes_to(
                cookie_to_string,
                #[trigger] saved(s, now)[i],
                Err::<String, E>(e),
            ),
    }
}

/// Whether `r` is a result of loading `lines` at `now` with
/// `cookie_from_str`: the store of [`loaded`] for cookies that
/// `cookie_from_str` gave for the records, in order, or an error that it
/// gave for one of them.
pub open spec fn loaded_from<E, F: Fn(&str) -> Result<Cookie, E>>(
    cookie_from_str: &F,
    lines: Seq<String>,
    now: int,
    r: Result<Seq<CookieView>, E>,
) -> bool {
    match r {
        Ok(store) => exists|cookies: Seq<CookieView>|
            {
                &&& cookies.len() == lines.len()
                &&& forall|i: int|
                    0 <= i < cookies.len() ==> decodes_to(
                        cookie_from_str,
                        lines[i]@,
                        #[trigger] cookies[i],
                    )
                &&& store == loaded(cookies, now)
            },
        Err(e) => exists|i: int|
            0 <= i < lines.len() && fails_on(cookie_from_str, (#[trigger] lines[i])@, e),
    }
}

/// In a store without repeated identities, the place of an identity is the
/// one place where it is found.
pub proof fn lemma_position(s: Seq<CookieView>, i: int)
    requires
        distinct_keys(s),
        0 <= i < s.len(),
    ensures
        holds(s, s[i].key()),
        position(s, s[i].key()) == i,
{
    let key = s[i].key();
    let p = position(s, key);
    assert(0 <= p < s.len() && s[p].key() == key);
    if p < i {
        assert(s[p].key() != s[i].key());
    } else if i < p {
        assert(s[i].key() != s[p].key());
    }
}

/// Insertion keeps identities distinct.
pub proof fn lemma_inserted_distinct(s: Seq<CookieView>, cookie: CookieView, now: int)
    requires
        distinct_keys(s),
    ensures
        distinct_keys(inserted(s, cookie, now)),
{
    let t = inserted(s, cookie, now);
    if holds(s, cookie.key()) {
        let p = position(s, cookie.key());
        assert(0 <= p < s.len() && s[p].key() == cookie.key());
        if cookie.expired_at(now) {
            assert forall|i: int, j: int| 0 <= i < j < t.len() implies (#[trigger] t[i]).key() != (
            #[trigger] t[j]).key() by {
                let a = if i < p { i } else { i + 1 };
                let b = if j < p { j } else { j + 1 };
                assert(t[i] == s[a]);
                assert(t[j] == s[b]);
            }
        } else {
            assert forall|i: int, j: int| 0 <= i < j < t.len() implies (#[trigger] t[i]).key() != (
            #[trigger] t[j]).key() by {
                assert(t[i].key() == s[i].key());
                assert(t[j].key() == s[j].key());
            }
        }
    } else {
        if !cookie.expired_at(now) {
            assert forall|i: int, j: int| 0 <= i < j < t.len() implies (#[trigger] t[i]).key() != (
            #[trigger] t[j]).key() by {
                if j == s.len() {
                    assert(t[i] == s[i]);
                    assert(s[i].key() != cookie.key());
                } else {
                    assert(t[i] == s[i]);
                    assert(t[j] == s[j]);
                }
            }
        }
    }
}

/// Putting a cookie into an ordered list keeps the list ordered.
pub proof fn lemma_placed_in_order(t: Seq<CookieView>, c: CookieView)
    requires
        in_request_order(t),
    ensures
        in_request_order(placed(t, c)),
{
    lemma_trailing_run(t, is_after(c));
    let p = t.len() - trailing_run(t, is_after(c));
    let r = placed(t, c);
    assert forall|i: int, j: int| 0 <= i < j < r.len() implies !goes_before(
        #[trigger] r[j],
        #[trigger] r[i],
    ) by {
        if j < p {
            assert(r[i] == t[i] && r[j] == t[j]);
        } else if j == p {
            assert(r[i] == t[i]);
            if p > 0 {
                assert(!is_after(c)(t[p - 1]));
                if i < p - 1 {
                    assert(!goes_before(t[p - 1], t[i]));
                }
            }
        } else if i == p {
            assert(r[j] == t[j - 1]);
            assert(is_after(c)(t[j - 1]));
        } else if i < p {
            assert(r[i] == t[i] && r[j] == t[j - 1]);
        } else {
            assert(r[i] == t[i - 1] && r[j] == t[j - 1]);
        }
    }
}

/// The order of a request holds every cookie as often as the list it was
/// made from, and no cookie in it stands before one that precedes it.
pub proof fn lemma_request_order(s: Seq<CookieView>)
    ensures
        request_order(s).to_multiset() == s.to_multiset(),
        request_order(s).len() == s.len(),
        in_request_order(request_order(s)),
    decreases s.len(),
{
    broadcast use vstd::seq_lib::group_to_multiset_ensures;

    if s.len() > 0 {
        let t = request_order(s.drop_last());
        let c = s.last();
        lemma_request_order(s.drop_last());
        lemma_placed_in_order(t, c);
        lemma_trailing_run(t, is_after(c));
        let p = t.len() - trailing_run(t, is_after(c));
        t.to_multiset_ensures();
        assert(placed(t, c).to_multiset() == t.to_multiset().insert(c)) by {
            vstd::seq_lib::lemma_seq_union_to_multiset_commutative(t.take(p), t.skip(p));
            vstd::seq_lib::lemma_multiset_commutative(t.take(p), t.skip(p));
            vstd::seq_lib::lemma_multiset_commutative(t.take(p).push(c), t.skip(p));
            assert(t.take(p) + t.skip(p) =~= t);
            assert(placed(t, c) =~= t.take(p).push(c) + t.skip(p));
            t.take(p).to_multiset_ensures();
            assert(placed(t, c).to_multiset() =~= t.to_multiset().insert(c));
        }
        assert(s.drop_last().push(c) =~= s);
        s.drop_last().to_multiset_ensures();
    }
}

/// The cookies that go with a request are the cookies of the store that
/// match the URL and have not ended: each of these, nothing else, and none
/// before one that it should follow.
pub proof fn lemma_request_cookies(s: Seq<CookieView>, url: UrlView, now: int)
    ensures
        in_request_order(request_cookies(s, url, now)),
        forall|c: CookieView| #[trigger]
            request_cookies(s, url, now).contains(c) <==> s.contains(c) && c.matches(url)
                && !c.expired_at(now),
{
    let keep = is_sendable(url, now);
    let kept = s.filter(keep);
    let r = request_cookies(s, url, now);
    lemma_request_order(kept);
    assert forall|c: CookieView| #[trigger] r.contains(c) <==> s.contains(c) && c.matches(url)
        && !c.expired_at(now) by {
        vstd::seq_lib::to_multiset_contains(r, c);
        vstd::seq_lib::to_multiset_contains(kept, c);
        assert(r.contains(c) <==> kept.contains(c));
        if kept.contains(c) {
            s.lemma_filter_contains_rev(keep, c);
            let i = choose|i: int| 0 <= i < kept.len() && kept[i] == c;
            s.lemma_filter_pred(keep, i);
        }
        if s.contains(c) && keep(c) {
            let i = choose|i: int| 0 <= i < s.len() && s[i] == c;
            s.lemma_filter_contains(keep, i);
        }
    }
}

/// Putting a cookie of a new identity into a list keeps identities
/// distinct; the cookie stands where it was put, and the others stand where
/// they stood, moved by one place from there on.
proof fn lemma_placed_keys(t: Seq<CookieView>, c: CookieView)
    requires
        distinct_keys(t),
        !holds(t, c.key()),
    ensures
        distinct_keys(placed(t, c)),
        placed(t, c).len() == t.len() + 1,
        ({
            let p = t.len() - trailing_run(t, is_after(c));
            &&& 0 <= p <= t.len()
            &&& placed(t, c)[p] == c
            &&& forall|q: int| 0 <= q < p ==> placed(t, c)[q] == #[trigger] t[q]
            &&& forall|q: int| p <= q < t.len() ==> placed(t, c)[q + 1] == #[trigger] t[q]
            &&& forall|q: int| p <= q < t.len() ==> goes_before(c, #[trigger] t[q])
        }),
{
    lemma_trailing_run(t, is_after(c));
    let p = t.len() - trailing_run(t, is_after(c));
    let r = placed(t, c);
    assert forall|q: int| p <= q < t.len() implies goes_before(c, #[trigger] t[q]) by {
        assert(is_after(c)(t[q]));
    }
    assert forall|i: int, j: int| 0 <= i < j < r.len() implies (#[trigger] r[i]).key() != (
    #[trigger] r[j]).key() by {
        let a = if i < p { i } else { i - 1 };
        let b = if j < p { j } else { j - 1 };
        if i == p {
            assert(r[j] == t[b]);
            assert(t[b].key() != c.key());
        } else if j == p {
            assert(r[i] == t[a]);
            assert(t[a].key() != c.key());
        } else {
            assert(r[i] == t[a] && r[j] == t[b]);
        }
    }
}

/// The order of a request holds the cookies of the list it was made from,
/// each once where their identities are distinct.
proof fn lemma_request_order_keys(s: Seq<CookieView>)
    requires
        distinct_keys(s),
    ensures
        distinct_keys(request_order(s)),
        request_order(s).len() == s.len(),
        forall|k: int|
            0 <= k < s.len() ==> holds(request_order(s), (#[trigger] s[k]).key()) && request_order(
                s,
            )[position(request_order(s), s[k].key())] == s[k],
        forall|q: int| 0 <= q < s.len() ==> holds(s, (#[trigger] request_order(s)[q]).key()),
    decreases s.len(),
{
    if s.len() > 0 {
        let n = s.len() - 1;
        let front = s.drop_last();
        let c = s.last();
        let t = request_order(front);
        assert forall|i: int, j: int| 0 <= i < j < front.len() implies (#[trigger] front[i]).key()
            != (#[trigger] front[j]).key() by {
            assert(front[i] == s[i] && front[j] == s[j]);
        }
        lemma_request_order_keys(front);
        if holds(t, c.key()) {
            let q = position(t, c.key());
            assert(0 <= q < t.len() && t[q].key() == c.key());
            assert(holds(front, t[q].key()));
            let k = position(front, t[q].key());
            assert(0 <= k < front.len() && front[k].key() == c.key());
            assert(s[k] == front[k]);
            assert(s[k].key() != s[n].key());
        }
        lemma_placed_keys(t, c);
        let r = request_order(s);
        let p = t.len() - trailing_run(t, is_after(c));
        assert forall|k: int| 0 <= k < s.len() implies holds(r, (#[trigger] s[k]).key())
            && r[position(r, s[k].key())] == s[k] by {
            if k == n {
                lemma_position(r, p);
            } else {
                assert(s[k] == front[k]);
                let q = position(t, front[k].key());
                assert(holds(t, front[k].key()));
                assert(0 <= q < t.len() && t[q].key() == front[k].key());
                assert(t[q] == front[k]);
                let q2 = if q < p { q } else { q + 1 };
                assert(r[q2] == t[q]);
                lemma_position(r, q2);
            }
        }
        assert forall|q: int| 0 <= q < s.len() implies holds(s, (#[trigger] r[q]).key()) by {
            if q == p {
                assert(s[n].key() == r[q].key());
            } else {
                let q0 = if q < p { q } else { q - 1 };
                assert(r[q] == t[q0]);
                assert(holds(front, t[q0].key()));
                let k = position(front, t[q0].key());
                assert(0 <= k < front.len() && front[k].key() == t[q0].key());
                assert(s[k] == front[k]);
            }
        }
    }
}

/// Where neither of two cookies that go with a request stands before the
/// other by path and creation time, the one that the store holds first comes
/// first: of the cookies at `i` and `j`, with `i` before `j`, the second
/// comes first only if it stands before the first.
pub proof fn lemma_request_order_stable(s: Seq<CookieView>, i: int, j: int)
    requires
        distinct_keys(s),
        0 <= i < j < s.len(),
        !goes_before(s[j], s[i]),
    ensures
        distinct_keys(request_order(s)),
        holds(request_order(s), s[i].key()),
        holds(request_order(s), s[j].key()),
        position(request_order(s), s[i].key()) < position(request_order(s), s[j].key()),
    decreases s.len(),
{
    let n = s.len() - 1;
    let front = s.drop_last();
    let c = s.last();
    let t = request_order(front);
    let r = request_order(s);
    assert forall|a: int, b: int| 0 <= a < b < front.len() implies (#[trigger] front[a]).key()
        != (#[trigger] front[b]).key() by {
        assert(front[a] == s[a] && front[b] == s[b]);
    }
    lemma_request_order_keys(s);
    lemma_request_order_keys(front);
    if holds(t, c.key()) {
        let q = position(t, c.key());
        assert(0 <= q < t.len() && t[q].key() == c.key());
        assert(holds(front, t[q].key()));
        let k = position(front, t[q].key());
        assert(0 <= k < front.len() && front[k].key() == c.key());
        assert(s[k] == front[k]);
        assert(s[k].key() != s[n].key());
    }
    lemma_placed_keys(t, c);
    let p = t.len() - trailing_run(t, is_after(c));
    assert(s[i] == front[i]);
    let qi = position(t, front[i].key());
    assert(holds(t, front[i].key()));
    assert(0 <= qi < t.len() && t[qi] == front[i]);
    if j < n {
        assert(s[j] == front[j]);
        lemma_request_order_stable(front, i, j);
        let qj = position(t, front[j].key());
        assert(0 <= qj < t.len() && t[qj] == front[j]);
        let ri = if qi < p { qi } else { qi + 1 };
        let rj = if qj < p { qj } else { qj + 1 };
        assert(r[ri] == t[qi] && r[rj] == t[qj]);
        lemma_position(r, ri);
        lemma_position(r, rj);
    } else {
        if qi >= p {
            assert(goes_before(c, t[qi]));
        }
        assert(r[qi] == t[qi]);
        lemma_position(r, qi);
        lemma_position(r, p);
    }
}

/// Insertion changes nothing under another identity.
pub proof fn lemma_insert_leaves_others(
    s: Seq<CookieView>,
    cookie: CookieView,
    now: int,
    key: CookieKey,
)
    requires
        distinct_keys(s),
        key != cookie.key(),
    ensures
        lookup(inserted(s, cookie, now), key) == lookup(s, key),
{
    let t = inserted(s, cookie, now);
    lemma_inserted_distinct(s, cookie, now);
    if holds(s, cookie.key()) {
        let p = position(s, cookie.key());
        assert(0 <= p < s.len() && s[p].key() == cookie.key());
        if cookie.expired_at(now) {
            if holds(s, key) {
                let q = position(s, key);
                assert(0 <= q < s.len() && s[q].key() == key);
                let k = if q < p { q } else { q - 1 };
                assert(t[k] == s[q]);
                lemma_position(t, k);
            } else if holds(t, key) {
                let k = position(t, key);
                assert(0 <= k < t.len() && t[k].key() == key);
                let q = if k < p { k } else { k + 1 };
                assert(s[q] == t[k]);
            }
        } else {
            if holds(s, key) {
                let q = position(s, key);
                assert(0 <= q < s.len() && s[q].key() == key);
                assert(t[q] == s[q]);
                lemma_position(t, q);
            } else if holds(t, key) {
                let k = position(t, key);
                assert(0 <= k < t.len() && t[k].key() == key);
                assert(s[k] == t[k]);
            }
        }
    } else if !cookie.expired_at(now) {
        if holds(s, key) {
            let q = position(s, key);
            assert(0 <= q < s.len() && s[q].key() == key);
            assert(t[q] == s[q]);
            lemma_position(t, q);
        } else if holds(t, key) {
            let k = position(t, key);
            assert(0 <= k < t.len() && t[k].key() == key);
            assert(s[k] == t[k]);
        }
    }
}

/// After a cookie that has not ended is inserted, the store holds it under
/// its identity. Its creation time is that of the cookie it replaced, if it
/// replaced one, and everything else is as it was received.
pub proof fn lemma_insert_live(s: Seq<CookieView>, cookie: CookieView, now: int)
    requires
        distinct_keys(s),
        !cookie.expired_at(now),
    ensures
        lookup(inserted(s, cookie, now), cookie.key()) == Some(
            match lookup(s, cookie.key()) {
                Some(held) => cookie.created_at(held.creation_time),
                None => cookie,
            },
        ),
        inserted(s, cookie, now).len() == if holds(s, cookie.key()) {
            s.len()
        } else {
            s.len() + 1
        },
{
    let t = inserted(s, cookie, now);
    lemma_inserted_distinct(s, cookie, now);
    if holds(s, cookie.key()) {
        let p = position(s, cookie.key());
        assert(0 <= p < s.len() && s[p].key() == cookie.key());
        assert(t[p].key() == cookie.key());
        lemma_position(t, p);
    } else {
        assert(t[s.len() as int] == cookie);
        lemma_position(t, s.len() as int);
    }
}

/// Inserting a cookie that has already ended leaves no cookie of its
/// identity in the store, whether one was held before or not.
pub proof fn lemma_insert_expired(s: Seq<CookieView>, cookie: CookieView, now: int)
    requires
        distinct_keys(s),
        cookie.expired_at(now),
    ensures
        !holds(inserted(s, cookie, now), cookie.key()),
        lookup(inserted(s, cookie, now), cookie.key()) is None,
{
    let t = inserted(s, cookie, now);
    if holds(s, cookie.key()) {
        let p = position(s, cookie.key());
        assert(0 <= p < s.len() && s[p].key() == cookie.key());
        if holds(t, cookie.key()) {
            let k = position(t, cookie.key());
            assert(0 <= k < t.len() && t[k].key() == cookie.key());
            let q = if k < p { k } else { k + 1 };
            assert(s[q] == t[k]);
            if q < p {
                assert(s[q].key() != s[p].key());
            } else {
                assert(s[p].key() != s[q].key());
            }
        }
    }
}

/// Inserting the same cookie a second time, while it has not ended, changes
/// nothing: the store holds one cookie of that identity, with the creation
/// time that the first insertion gave it.
pub proof fn lemma_insert_twice(s: Seq<CookieView>, cookie: CookieView, first: int, second: int)
    requires
        distinct_keys(s),
        !cookie.expired_at(first),
        !cookie.expired_at(second),
    ensures
        inserted(inserted(s, cookie, first), cookie, second) == inserted(s, cookie, first),
        insert_action(inserted(s, cookie, first), cookie, second) == StoreAction::Updated,
        distinct_keys(inserted(s, cookie, first)),
{
    let once = inserted(s, cookie, first);
    lemma_inserted_distinct(s, cookie, first);
    lemma_insert_live(s, cookie, first);
    let p = position(once, cookie.key());
    assert(0 <= p < once.len() && once[p].key() == cookie.key());
    assert(once[p].created_at(once[p].creation_time) == once[p]);
    assert(cookie.created_at(once[p].creation_time) == once[p]);
    assert(inserted(once, cookie, second) =~= once);
}

/// Inserting a second cookie of an identity that the store holds, while that
/// cookie has not ended, puts it in the place of the first: the number of
/// cookies stays, what the second cookie carries is what the store then
/// holds, and the creation time is still that of the first.
pub proof fn lemma_insert_again(
    s: Seq<CookieView>,
    first: CookieView,
    second: CookieView,
    t1: int,
    t2: int,
)
    requires
        distinct_keys(s),
        first.key() == second.key(),
        !first.expired_at(t1),
        !second.expired_at(t2),
    ensures
        ({
            let once = inserted(s, first, t1);
            let twice = inserted(once, second, t2);
            &&& twice.len() == once.len()
            &&& insert_action(once, second, t2) == StoreAction::Updated
            &&& lookup(once, first.key()) is Some
            &&& lookup(twice, first.key()) == Some(
                second.created_at(lookup(once, first.key())->0.creation_time),
            )
        }),
{
    let once = inserted(s, first, t1);
    lemma_inserted_distinct(s, first, t1);
    lemma_insert_live(s, first, t1);
    lemma_insert_live(once, second, t2);
}

/// Filtering keeps identities distinct, and what is kept satisfies the
/// filter.
pub proof fn lemma_filter_distinct(s: Seq<CookieView>, keep: spec_fn(CookieView) -> bool)
    requires
        distinct_keys(s),
    ensures
        distinct_keys(s.filter(keep)),
        forall|i: int| 0 <= i < s.filter(keep).len() ==> keep(#[trigger] s.filter(keep)[i]),
        forall|i: int|
            0 <= i < s.filter(keep).len() ==> holds(s, (#[trigger] s.filter(keep)[i]).key()),
    decreases s.len(),
{
    reveal(Seq::filter);
    if s.len() > 0 {
        let front = s.drop_last();
        assert forall|i: int, j: int| 0 <= i < j < front.len() implies (#[trigger] front[i]).key()
            != (#[trigger] front[j]).key() by {
            assert(front[i] == s[i] && front[j] == s[j]);
        }
        lemma_filter_distinct(front, keep);
        let kept = front.filter(keep);
        let all = s.filter(keep);
        assert forall|i: int| 0 <= i < all.len() implies holds(s, (#[trigger] all[i]).key()) by {
            if i < kept.len() {
                assert(all[i] == kept[i]);
                let q = position(front, kept[i].key());
                assert(0 <= q < front.len() && front[q].key() == kept[i].key());
                assert(s[q] == front[q]);
            } else {
                assert(all[i] == s.last());
                assert(s[s.len() - 1].key() == all[i].key());
            }
        }
        assert forall|i: int, j: int| 0 <= i < j < all.len() implies (#[trigger] all[i]).key() != (
        #[trigger] all[j]).key() by {
            if j < kept.len() {
                assert(all[i] == kept[i] && all[j] == kept[j]);
            } else {
                assert(all[j] == s.last());
                assert(all[i] == kept[i]);
                let q = position(front, kept[i].key());
                assert(0 <= q < front.len() && front[q].key() == kept[i].key());
                assert(s[q] == front[q]);
                assert(s[q].key() != s[s.len() - 1].key());
            }
        }
    }
}

/// Loading cookies that have not ended and have distinct identities gives a
/// store that holds just them, in their order.
pub proof fn lemma_load_distinct(cookies: Seq<CookieView>, now: int)
    requires
        distinct_keys(cookies),
        forall|i: int| 0 <= i < cookies.len() ==> !(#[trigger] cookies[i]).expired_at(now),
    ensures
        loaded(cookies, now) == cookies,
    decreases cookies.len(),
{
    if cookies.len() > 0 {
        let front = cookies.drop_last();
        assert forall|i: int, j: int| 0 <= i < j < front.len() implies (#[trigger] front[i]).key()
            != (#[trigger] front[j]).key() by {
            assert(front[i] == cookies[i] && front[j] == cookies[j]);
        }
        assert forall|i: int| 0 <= i < front.len() implies !(#[trigger] front[i]).expired_at(
            now,
        ) by {
            assert(front[i] == cookies[i]);
        }
        lemma_load_distinct(front, now);
        let c = cookies.last();
        assert(cookies[cookies.len() - 1] == c);
        if holds(front, c.key()) {
            let q = position(front, c.key());
            assert(0 <= q < front.len() && front[q].key() == c.key());
            assert(cookies[q] == front[q]);
            assert(cookies[q].key() != cookies[cookies.len() - 1].key());
        }
        assert(front.push(c) =~= cookies);
    }
}

/// Saving a store and loading what was saved, both at `now`, gives the
/// cookies that were saved: the same names, values, domains, paths,
/// expirations and creation times, in the same order.
pub proof fn lemma_save_then_load(s: Seq<CookieView>, now: int)
    requires
        distinct_keys(s),
    ensures
        loaded(saved(s, now), now) == saved(s, now),
        distinct_keys(saved(s, now)),
        forall|i: int|
            0 <= i < saved(s, now).len() ==> (#[trigger] saved(s, now)[i]).persistent() && !saved(
                s,
                now,
            )[i].expired_at(now),
{
    lemma_filter_distinct(s, is_saved(now));
    lemma_load_distinct(saved(s, now), now);
}

/// Saving and loading, both at `now`, with a writer and a reader of records
/// that agree: where the reader makes of every record that the writer wrote
/// the cookie it was written for, the store that is loaded from the records
/// of a saved store holds the cookies that were saved, in their order.
pub proof fn lemma_round_trip<
    E1,
    E2,
    F: Fn(&Cookie) -> Result<String, E1>,
    G: Fn(&str) -> Result<Cookie, E2>,
>(
    cookie_to_string: &F,
    cookie_from_str: &G,
    s: Seq<CookieView>,
    now: int,
    lines: Vec<String>,
    store: Seq<CookieView>,
)
    requires
        distinct_keys(s),
        saved_as(cookie_to_string, s, now, Ok::<Vec<String>, E1>(lines)),
        loaded_from(cookie_from_str, lines@, now, Ok::<Seq<CookieView>, E2>(store)),
        forall|written: CookieView, line: String, read: CookieView|
            #![trigger
                encodes_to(cookie_to_string, written, Ok::<String, E1>(line)),
                decodes_to(cookie_from_str, line@, read)]
            encodes_to(cookie_to_string, written, Ok::<String, E1>(line)) && decodes_to(
                cookie_from_str,
                line@,
                read,
            ) ==> read == written,
    ensures
        store == saved(s, now),
{
    let cookies = choose|cookies: Seq<CookieView>|
        {
            &&& cookies.len() == lines@.len()
            &&& forall|i: int|
                0 <= i < cookies.len() ==> decodes_to(
                    cookie_from_str,
                    lines@[i]@,
                    #[trigger] cookies[i],
                )
            &&& store == loaded(cookies, now)
        };
    assert forall|i: int| 0 <= i < cookies.len() implies cookies[i] == saved(s, now)[i] by {
        assert(decodes_to(cookie_from_str, lines@[i]@, cookies[i]));
        assert(encodes_to(cookie_to_string, saved(s, now)[i], Ok::<String, E1>(lines@[i])));
    }
    assert(cookies =~= saved(s, now));
    lemma_save_then_load(s, now);
}

/// Loading keeps identities distinct.
pub proof fn lemma_loaded_distinct(cookies: Seq<CookieView>, now: int)
    ensures
        distinct_keys(loaded(cookies, now)),
    decreases cookies.len(),
{
    if cookies.len() > 0 {
        lemma_loaded_distinct(cookies.drop_last(), now);
        lemma_inserted_distinct(loaded(cookies.drop_last(), now), cookies.last(), now);
    }
}

} // verus!
