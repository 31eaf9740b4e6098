//! The store of cookies: what is kept, what replaces what, and which
//! cookies go with a request.

use vstd::prelude::*;
use vstd::string::StrSliceExecFns;
use crate::cookie_entity::{classified_by, Cookie, CookieKey, CookieView};
use crate::error::CookieError;
use crate::raw_cookie::{parsed_cookie, raw_views, RawCookie};
use crate::request_url::RequestUrl;
use crate::runs::lemma_trailing_run_unique;
use crate::store_model::{
    all_classified_by, borrowed_views, cookie_views, decodes_to, distinct_keys, encodes_to,
    fails_on, goes_before, holds, insert_action, inserted, is_after, is_live, is_saved,
    is_sendable, lemma_filter_distinct, lemma_inserted_distinct, lemma_position, loaded,
    loaded_from, lookup, placed, position, raw_insert_result, raw_inserted, request_cookies,
    request_order, response_stored, saved, saved_as,
};

verus! {

/// What an insertion did to the store.
#[derive(Debug, Clone, Copy, PartialEq, Eq, Structural)]
pub enum StoreAction {
    /// The cookie was stored; none with its identity was there before.
    Inserted,
    /// The cookie took the place of the one with its identity.
    Updated,
    /// The cookie had already ended, and the one with its identity was
    /// removed.
    Removed,
    /// The cookie had already ended and none with its identity was there:
    /// nothing was stored.
    DiscardedExpired,
}

/// The cookies held by a user agent, in the order in which their identities
/// were first stored. No two of them have the same identity.
#[derive(Debug)]
pub struct CookieStore {
    cookies: Vec<Cookie>,
}

/// The view of a result whose value is a store.
pub open spec fn store_result_view<E>(r: Result<CookieStore, E>) -> Result<Seq<CookieView>, E> {
    match r {
        Ok(store) => Ok(store@),
        Err(e) => Err(e),
    }
}

impl View for CookieStore {
    type V = Seq<CookieView>;

    closed spec fn view(&self) -> Seq<CookieView> {
        cookie_views(self.cookies@)
    }
}

impl Default for CookieStore {
    /// A store that holds nothing.
    fn default() -> (r: CookieStore)
        ensures
            r@ == Seq::<CookieView>::empty(),
            distinct_keys(r@),
    {
        CookieStore::new()
    }
}

impl CookieStore {
    #[verifier::type_invariant]
    spec fn keys_are_distinct(&self) -> bool {
        distinct_keys(cookie_views(self.cookies@))
    }

    /// A store that holds nothing.
    pub fn new() -> (r: CookieStore)
        ensures
            r@ == Seq::<CookieView>::empty(),
            distinct_keys(r@),
    {
        let r = CookieStore { cookies: Vec::new() };
        assert(cookie_views(r.cookies@) =~= Seq::empty());
        r
    }

    /// The place of the cookie with the identity of `domain`, `path` and
    /// `name`, or the number of cookies where there is none.
    fn find(&self, domain: &str, path: &str, name: &str) -> (r: usize)
        ensures
            r <= self@.len(),
            distinct_keys(self@),
            ({
                let key = CookieKey { domain: domain@, path: path@, name: name@ };
                if r < self@.len() {
                    holds(self@, key) && position(self@, key) == r
                } else {
                    !holds(self@, key)
                }
            }),
    {
        proof {
            use_type_invariant(self);
        }
        let ghost key = CookieKey { domain: domain@, path: path@, name: name@ };
        let mut i: usize = 0;
        while i < self.cookies.len()
            invariant
                i <= self.cookies.len(),
                self@ == cookie_views(self.cookies@),
                distinct_keys(self@),
                key == (CookieKey { domain: domain@, path: path@, name: name@ }),
                forall|k: int| 0 <= k < i ==> (#[trigger] self@[k]).key() != key,
            decreases self.cookies.len() - i,
        {
            if self.cookies[i].has_key(domain, path, name) {
                proof {
                    lemma_position(self@, i as int);
                }
                return i;
            }
            i += 1;
        }
        i
    }

    /// Stores `cookie`, received at `now`.
    ///
    /// A cookie with the same domain, path and name that is already held is
    /// replaced, and its creation time is kept; if `cookie` has already ended
    /// at `now`, the held one is removed instead. A cookie that has already
    /// ended and replaces nothing is not stored.
    pub fn insert(&mut self, cookie: Cookie, now: i64) -> (action: StoreAction)
        ensures
            final(self)@ == inserted(old(self)@, cookie@, now as int),
            action == insert_action(old(self)@, cookie@, now as int),
            distinct_keys(old(self)@),
            distinct_keys(final(self)@),
    {
        let expired = cookie.is_expired(now);
        let i = self.find(cookie.domain().as_str(), cookie.path().as_str(), cookie.name());
        proof {
            lemma_inserted_distinct(self@, cookie@, now as int);
        }
        // The list leaves the store while it changes and comes back when it
        // is whole again: what the store holds has distinct identities at
        // every moment.
        let mut cookies: Vec<Cookie> = Vec::new();
        assert(cookie_views(cookies@) =~= Seq::empty());
        std::mem::swap(&mut self.cookies, &mut cookies);
        let action = if i < cookies.len() {
            if expired {
                cookies.remove(i);
                assert(cookie_views(cookies@) =~= old(self)@.remove(i as int));
                StoreAction::Removed
            } else {
                let created = cookies[i].creation_time();
                cookies.set(i, cookie.with_creation_time(created));
                assert(cookie_views(cookies@) =~= old(self)@.update(
                    i as int,
                    cookie@.created_at(created as int),
                ));
                StoreAction::Updated
            }
        } else {
            if expired {
                StoreAction::DiscardedExpired
            } else {
                cookies.push(cookie);
                assert(cookie_views(cookies@) =~= old(self)@.push(cookie@));
                StoreAction::Inserted
            }
        };
        self.cookies = cookies;
        action
    }

    /// The cookie with the identity of `domain`, `path` and `name`, whether
    /// it has ended or not.
    pub fn get(&self, domain: &str, path: &str, name: &str) -> (r: Option<&Cookie>)
        ensures
            match r {
                Some(c) => lookup(self@, CookieKey { domain: domain@, path: path@, name: name@ })
                    == Some(c@),
                None => lookup(self@, CookieKey { domain: domain@, path: path@, name: name@ })
                    is None,
            },
    {
        let i = self.find(domain, path, name);
        if i < self.cookies.len() {
            Some(&self.cookies[i])
        } else {
            None
        }
    }

    /// Whether a cookie with the identity of `domain`, `path` and `name` is
    /// held, ended or not.
    pub fn contains_any(&self, domain: &str, path: &str, name: &str) -> (r: bool)
        ensures
            r == holds(self@, CookieKey { domain: domain@, path: path@, name: name@ }),
    {
        let i = self.find(domain, path, name);
        i < self.cookies.len()
    }

    /// Whether a cookie with the identity of `domain`, `path` and `name` is
    /// held and has not ended at `now`.
    pub fn contains(&self, domain: &str, path: &str, name: &str, now: i64) -> (r: bool)
        ensures
            r == match lookup(self@, CookieKey { domain: domain@, path: path@, name: name@ }) {
                Some(c) => !c.expired_at(now as int),
                None => false,
            },
    {
        match self.get(domain, path, name) {
            Some(c) => !c.is_expired(now),
            None => false,
        }
    }

    /// The number of cookies held, ended or not.
    pub fn len(&self) -> (r: usize)
        ensures
            r == self@.len(),
    {
        self.cookies.len()
    }

    /// Every cookie held, ended or not, in the order of the store.
    pub fn iter_any(&self) -> (r: Vec<&Cookie>)
        ensures
            borrowed_views(r@) == self@,
            distinct_keys(self@),
    {
        proof {
            use_type_invariant(self);
        }
        let mut out: Vec<&Cookie> = Vec::new();
        let mut i: usize = 0;
        while i < self.cookies.len()
            invariant
                i <= self.cookies.len(),
                self@ == cookie_views(self.cookies@),
                borrowed_views(out@) == self@.take(i as int),
            decreases self.cookies.len() - i,
        {
            let ghost before = borrowed_views(out@);
            out.push(&self.cookies[i]);
            assert(borrowed_views(out@) =~= before.push(self@[i as int]));
            assert(self@.take(i + 1) =~= self@.take(i as int).push(self@[i as int]));
            i += 1;
        }
        assert(self@.take(i as int) =~= self@);
        out
    }

    /// The cookies held that have not ended at `now`, in the order of the
    /// store.
    pub fn iter_unexpired(&self, now: i64) -> (r: Vec<&Cookie>)
        ensures
            borrowed_views(r@) == self@.filter(is_live(now as int)),
    {
        let mut out: Vec<&Cookie> = Vec::new();
        let mut i: usize = 0;
        proof {
            reveal(Seq::filter);
            assert(self@.take(0) =~= Seq::empty());
        }
        while i < self.cookies.len()
            invariant
                i <= self.cookies.len(),
                self@ == cookie_views(self.cookies@),
                borrowed_views(out@) == self@.take(i as int).filter(is_live(now as int)),
            decreases self.cookies.len() - i,
        {
            let ghost before = borrowed_views(out@);
            proof {
                reveal(Seq::filter);
                assert(self@.take(i + 1).drop_last() =~= self@.take(i as int));
            }
            if !self.cookies[i].is_expired(now) {
                out.push(&self.cookies[i]);
                assert(borrowed_views(out@) =~= before.push(self@[i as int]));
            }
            i += 1;
        }
        assert(self@.take(i as int) =~= self@);
        out
    }

    /// The cookies to send with a request to `request_url` at `now`: those
    /// that match the URL and have not ended. Cookies with longer paths come
    /// first; among paths of one length, those created earlier; among those,
    /// the ones stored earlier.
    pub fn get_request_cookies(&self, request_url: &RequestUrl, now: i64) -> (r: Vec<&Cookie>)
        ensures
            borrowed_views(r@) == request_cookies(self@, request_url@, now as int),
    {
        let ghost sendable = is_sendable(request_url@, now as int);
        let mut out: Vec<&Cookie> = Vec::new();
        let mut i: usize = 0;
        proof {
            reveal(Seq::filter);
            assert(self@.take(0) =~= Seq::empty());
            assert(borrowed_views(out@) =~= Seq::empty());
        }
        while i < self.cookies.len()
            invariant
                i <= self.cookies.len(),
                self@ == cookie_views(self.cookies@),
                sendable == is_sendable(request_url@, now as int),
                borrowed_views(out@) == request_order(self@.take(i as int).filter(sendable)),
            decreases self.cookies.len() - i,
        {
            let cookie = &self.cookies[i];
            let ghost before = borrowed_views(out@);
            let ghost kept = self@.take(i as int).filter(sendable);
            proof {
                reveal(Seq::filter);
                assert(self@.take(i + 1).drop_last() =~= self@.take(i as int));
                if sendable(cookie@) {
                    assert(kept.push(cookie@).drop_last() =~= kept);
                }
            }
            if cookie.matches(request_url) && !cookie.is_expired(now) {
                let mut p: usize = out.len();
                while p > 0 && stands_before(cookie, out[p - 1])
                    invariant
                        p <= out.len(),
                        before == borrowed_views(out@),
                        forall|k: int|
                            p <= k < out.len() ==> goes_before(cookie@, #[trigger] before[k]),
                    decreases p,
                {
                    p -= 1;
                }
                proof {
                    assert forall|k: int| p <= k < before.len() implies is_after(cookie@)(
                        #[trigger] before[k],
                    ) by {}
                    lemma_trailing_run_unique(before, is_after(cookie@), out.len() - p);
                }
                out.insert(p, cookie);
                assert(borrowed_views(out@) =~= placed(before, cookie@));
            }
            i += 1;
        }
        assert(self@.take(i as int) =~= self@);
        out
    }

    /// The cookies that are written when the store is saved at `now`:
    /// those that outlive the session and have not ended, in the order of
    /// the store.
    pub fn iter_saved(&self, now: i64) -> (r: Vec<&Cookie>)
        ensures
            borrowed_views(r@) == saved(self@, now as int),
    {
        let mut out: Vec<&Cookie> = Vec::new();
        let mut i: usize = 0;
        proof {
            reveal(Seq::filter);
            assert(self@.take(0) =~= Seq::empty());
        }
        while i < self.cookies.len()
            invariant
                i <= self.cookies.len(),
                self@ == cookie_views(self.cookies@),
                borrowed_views(out@) == self@.take(i as int).filter(is_saved(now as int)),
            decreases self.cookies.len() - i,
        {
            let ghost before = borrowed_views(out@);
            proof {
                reveal(Seq::filter);
                assert(self@.take(i + 1).drop_last() =~= self@.take(i as int));
            }
            if self.cookies[i].is_persistent() && !self.cookies[i].is_expired(now) {
                out.push(&self.cookies[i]);
                assert(borrowed_views(out@) =~= before.push(self@[i as int]));
            }
            i += 1;
        }
        assert(self@.take(i as int) =~= self@);
        out
    }

    /// Saves the store at `now`: one record for each cookie that outlives
    /// the session and has not ended, made by `cookie_to_string`, in the
    /// order of the store. The first cookie that `cookie_to_string` fails on
    /// ends the saving with that error.
    pub fn save<E, F: Fn(&Cookie) -> Result<String, E>>(
        &self,
        now: i64,
        cookie_to_string: &F,
    ) -> (r: Result<Vec<String>, E>)
        requires
            forall|c: &Cookie| call_requires(cookie_to_string, (c,)),
        ensures
            saved_as(cookie_to_string, self@, now as int, r),
    {
        let cookies = self.iter_saved(now);
        let ghost kept = saved(self@, now as int);
        let mut lines: Vec<String> = Vec::new();
        let mut i: usize = 0;
        while i < cookies.len()
            invariant
                i <= cookies.len(),
                kept == borrowed_views(cookies@),
                kept == saved(self@, now as int),
                forall|c: &Cookie| call_requires(cookie_to_string, (c,)),
                lines@.len() == i,
                forall|k: int|
                    0 <= k < i ==> encodes_to(
                        cookie_to_string,
                        kept[k],
                        Ok::<String, E>(#[trigger] lines@[k]),
                    ),
            decreases cookies.len() - i,
        {
            assert(kept[i as int] == cookies@[i as int]@);
            match cookie_to_string(cookies[i]) {
                Ok(line) => {
                    lines.push(line);
                },
                Err(e) => {
                    assert(encodes_to(cookie_to_string, kept[i as int], Err::<String, E>(e)));
                    return Err(e);
                },
            }
            i += 1;
        }
        Ok(lines)
    }

    /// The store that holds `cookies` after they are inserted at `now`, one
    /// after the other, into an empty store.
    pub fn from_cookies(cookies: Vec<Cookie>, now: i64) -> (r: CookieStore)
        ensures
            r@ == loaded(cookie_views(cookies@), now as int),
            distinct_keys(r@),
    {
        let ghost all = cookie_views(cookies@);
        let mut store = CookieStore::new();
        let mut rest = cookies;
        let mut reversed: Vec<Cookie> = Vec::new();
        while rest.len() > 0
            invariant
                rest@.len() + reversed@.len() == all.len(),
                forall|k: int| 0 <= k < rest@.len() ==> (#[trigger] rest@[k])@ == all[k],
                forall|k: int|
                    0 <= k < reversed@.len() ==> (#[trigger] reversed@[k])@ == all[all.len() - 1
                        - k],
            decreases rest.len(),
        {
            let c = rest.pop().unwrap();
            reversed.push(c);
        }
        let ghost n = all.len();
        assert(all.take(0) =~= Seq::empty());
        while reversed.len() > 0
            invariant
                reversed@.len() <= n,
                n == all.len(),
                forall|k: int|
                    0 <= k < reversed@.len() ==> (#[trigger] reversed@[k])@ == all[all.len() - 1
                        - k],
                store@ == loaded(all.take(n - reversed@.len()), now as int),
            decreases reversed.len(),
        {
            let ghost done = n - reversed@.len();
            let c = reversed.pop().unwrap();
            assert(c@ == all[done]);
            assert(all.take(done + 1).drop_last() =~= all.take(done));
            store.insert(c, now);
        }
        assert(all.take(n as int) =~= all);
        proof {
            use_type_invariant(&store);
        }
        store
    }

    /// Loads a store at `now` from `lines`, one record for each cookie, read
    /// by `cookie_from_str`. The cookies are inserted one after the other as
    /// they are; whether their domains cover a host is not asked again. The
    /// first record that `cookie_from_str` fails on ends the loading with
    /// that error.
    pub fn load<E, F: Fn(&str) -> Result<Cookie, E>>(
        lines: &Vec<String>,
        cookie_from_str: &F,
        now: i64,
    ) -> (r: Result<CookieStore, E>)
        requires
            forall|l: &str| call_requires(cookie_from_str, (l,)),
        ensures
            loaded_from(cookie_from_str, lines@, now as int, store_result_view(r)),
    {
        let mut store = CookieStore::new();
        let ghost mut cookies: Seq<CookieView> = Seq::empty();
        let mut i: usize = 0;
        while i < lines.len()
            invariant
                i <= lines.len(),
                forall|l: &str| call_requires(cookie_from_str, (l,)),
                cookies.len() == i,
                forall|k: int|
                    0 <= k < i ==> decodes_to(cookie_from_str, lines@[k]@, #[trigger] cookies[k]),
                store@ == loaded(cookies, now as int),
            decreases lines.len() - i,
        {
            match cookie_from_str(lines[i].as_str()) {
                Ok(c) => {
                    proof {
                        let next = cookies.push(c@);
                        assert(next.drop_last() =~= cookies);
                        assert(decodes_to(cookie_from_str, lines@[i as int]@, c@));
                        cookies = next;
                    }
                    store.insert(c, now);
                },
                Err(e) => {
                    assert(fails_on(cookie_from_str, lines@[i as int]@, e));
                    return Err(e);
                },
            }
            i += 1;
        }
        Ok(store)
    }

    /// Removes the cookies that have ended by time at `now`. The store keeps
    /// such cookies until this is called, so that [`CookieStore::contains_any`]
    /// can tell a cookie that has ended from one that was never set; a user
    /// agent that runs for long calls this from time to time.
    pub fn remove_expired(&mut self, now: i64)
        ensures
            final(self)@ == old(self)@.filter(is_live(now as int)),
            distinct_keys(final(self)@),
    {
        proof {
            use_type_invariant(&*self);
            lemma_filter_distinct(self@, is_live(now as int));
        }
        let ghost all = self@;
        let ghost live = is_live(now as int);
        let mut cookies: Vec<Cookie> = Vec::new();
        assert(cookie_views(cookies@) =~= Seq::empty());
        std::mem::swap(&mut self.cookies, &mut cookies);
        let mut i: usize = 0;
        let ghost mut k: int = 0;
        proof {
            reveal(Seq::filter);
            assert(all.take(0) =~= Seq::empty());
            assert(cookie_views(cookies@).take(0) =~= Seq::empty());
            assert(cookie_views(cookies@).skip(0) =~= all.skip(0));
        }
        while i < cookies.len()
            invariant
                i <= cookies.len(),
                i <= k <= all.len(),
                cookies.len() - i == all.len() - k,
                live == is_live(now as int),
                cookie_views(cookies@).take(i as int) == all.take(k).filter(live),
                cookie_views(cookies@).skip(i as int) == all.skip(k),
            decreases cookies.len() - i,
        {
            let ghost before = cookie_views(cookies@);
            proof {
                reveal(Seq::filter);
                assert(before.skip(i as int)[0] == all.skip(k)[0]);
                assert(all.take(k + 1).drop_last() =~= all.take(k));
            }
            if cookies[i].is_expired(now) {
                cookies.remove(i);
                proof {
                    let after = cookie_views(cookies@);
                    assert(after =~= before.remove(i as int));
                    assert(after.take(i as int) =~= before.take(i as int));
                    assert(after.skip(i as int) =~= before.skip(i as int).skip(1));
                    assert(all.skip(k).skip(1) =~= all.skip(k + 1));
                }
            } else {
                proof {
                    assert(before.take(i + 1) =~= before.take(i as int).push(before[i as int]));
                    assert(before.skip(i + 1) =~= before.skip(i as int).skip(1));
                    assert(all.skip(k).skip(1) =~= all.skip(k + 1));
                }
                i += 1;
            }
            proof {
                k = k + 1;
            }
        }
        proof {
            assert(cookie_views(cookies@).take(i as int) =~= cookie_views(cookies@));
            assert(all.take(k) =~= all);
        }
        self.cookies = cookies;
    }

    /// Removes every cookie.
    pub fn clear(&mut self)
        ensures
            final(self)@ == Seq::<CookieView>::empty(),
    {
        let cookies: Vec<Cookie> = Vec::new();
        assert(cookie_views(cookies@) =~= Seq::empty());
        self.cookies = cookies;
    }

    /// Receives the cookie with the attributes `raw`, sent from
    /// `request_url`, at `now`, where `public_suffix` is the classifier's
    /// answer for it. A cookie that is refused leaves the store as it is.
    pub fn insert_raw_classified(
        &mut self,
        raw: &RawCookie,
        request_url: &RequestUrl,
        now: i64,
        public_suffix: bool,
    ) -> (r: Result<StoreAction, CookieError>)
        ensures
            final(self)@ == raw_inserted(
                old(self)@,
                raw@,
                request_url@,
                now as int,
                public_suffix,
            ),
            r == raw_insert_result(old(self)@, raw@, request_url@, now as int, public_suffix),
    {
        match Cookie::from_raw_classified(raw, request_url, now, public_suffix) {
            Ok(cookie) => Ok(self.insert(cookie, now)),
            Err(e) => Err(e),
        }
    }

    /// Receives the cookie with the attributes `raw`, sent from
    /// `request_url`, at `now`. `is_public_suffix` is asked as
    /// [`Cookie::classify`] says.
    pub fn insert_raw<F: Fn(&str) -> bool>(
        &mut self,
        raw: &RawCookie,
        request_url: &RequestUrl,
        now: i64,
        is_public_suffix: &F,
    ) -> (r: Result<StoreAction, CookieError>)
        requires
            forall|d: &str| call_requires(is_public_suffix, (d,)),
        ensures
            exists|public_suffix: bool|
                {
                    &&& classified_by(is_public_suffix, raw@, request_url@, public_suffix)
                    &&& final(self)@ == raw_inserted(
                        old(self)@,
                        raw@,
                        request_url@,
                        now as int,
                        public_suffix,
                    )
                    &&& r == raw_insert_result(
                        old(self)@,
                        raw@,
                        request_url@,
                        now as int,
                        public_suffix,
                    )
                },
    {
        let public_suffix = Cookie::classify(raw, request_url, is_public_suffix);
        self.insert_raw_classified(raw, request_url, now, public_suffix)
    }

    /// Receives the cookie of the `Set-Cookie` value `header`, sent from
    /// `request_url`, at `now`.
    pub fn parse<F: Fn(&str) -> bool>(
        &mut self,
        header: &str,
        request_url: &RequestUrl,
        now: i64,
        is_public_suffix: &F,
    ) -> (r: Result<StoreAction, CookieError>)
        requires
            forall|d: &str| call_requires(is_public_suffix, (d,)),
        ensures
            match parsed_cookie(header@) {
                None => {
                    &&& r == Err::<StoreAction, CookieError>(CookieError::RawCookieParse)
                    &&& final(self)@ == old(self)@
                },
                Some(raw) => exists|public_suffix: bool|
                    {
                        &&& classified_by(is_public_suffix, raw, request_url@, public_suffix)
                        &&& final(self)@ == raw_inserted(
                            old(self)@,
                            raw,
                            request_url@,
                            now as int,
                            public_suffix,
                        )
                        &&& r == raw_insert_result(
                            old(self)@,
                            raw,
                            request_url@,
                            now as int,
                            public_suffix,
                        )
                    },
            },
    {
        match RawCookie::parse(header) {
            Ok(raw) => self.insert_raw(&raw, request_url, now, is_public_suffix),
            Err(e) => Err(e),
        }
    }

    /// Receives the cookies of a response from `request_url` at `now`, one
    /// after the other. A cookie that is refused is passed over: the ones
    /// after it are still received.
    pub fn store_response_cookies<F: Fn(&str) -> bool>(
        &mut self,
        cookies: &Vec<RawCookie>,
        request_url: &RequestUrl,
        now: i64,
        is_public_suffix: &F,
    )
        requires
            forall|d: &str| call_requires(is_public_suffix, (d,)),
        ensures
            exists|public_suffix: Seq<bool>|
                {
                    &&& all_classified_by(
                        is_public_suffix,
                        raw_views(cookies@),
                        request_url@,
                        public_suffix,
                    )
                    &&& final(self)@ == response_stored(
                        old(self)@,
                        raw_views(cookies@),
                        request_url@,
                        now as int,
                        public_suffix,
                    )
                },
    {
        let ghost raws = raw_views(cookies@);
        let ghost mut answers: Seq<bool> = Seq::empty();
        let mut i: usize = 0;
        assert(raws.take(0) =~= Seq::empty());
        while i < cookies.len()
            invariant
                i <= cookies.len(),
                raws == raw_views(cookies@),
                forall|d: &str| call_requires(is_public_suffix, (d,)),
                all_classified_by(is_public_suffix, raws.take(i as int), request_url@, answers),
                self@ == response_stored(
                    old(self)@,
                    raws.take(i as int),
                    request_url@,
                    now as int,
                    answers,
                ),
            decreases cookies.len() - i,
        {
            let public_suffix = Cookie::classify(&cookies[i], request_url, is_public_suffix);
            let _ = self.insert_raw_classified(&cookies[i], request_url, now, public_suffix);
            proof {
                let next = answers.push(public_suffix);
                assert(raws.take(i + 1).drop_last() =~= raws.take(i as int));
                assert(next.drop_last() =~= answers);
                assert(raws.take(i + 1).last() == cookies@[i as int]@);
                assert forall|k: int| 0 <= k < i + 1 implies classified_by(
                    is_public_suffix,
                    #[trigger] raws.take(i + 1)[k],
                    request_url@,
                    next[k],
                ) by {
                    if k < i {
                        assert(raws.take(i as int)[k] == raws.take(i + 1)[k]);
                    }
                }
                answers = next;
            }
            i += 1;
        }
        assert(raws.take(i as int) =~= raws);
    }
}

/// Whether `a` stands before `b` in a request.
fn stands_before(a: &Cookie, b: &Cookie) -> (r: bool)
    ensures
        r == goes_before(a@, b@),
{
    let m = a.path().as_str().unicode_len();
    let n = b.path().as_str().unicode_len();
    m > n || (m == n && a.creation_time() < b.creation_time())
}

} // verus!
