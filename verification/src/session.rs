//! A session: an HTTP client together with the cookies it has received.
//!
//! The client is supplied by the user, through the traits of this module.
//! The session adds the stored cookies to each request and stores the
//! cookies of each response.

use vstd::prelude::*;
use crate::clock::now_utc;
use crate::cookie_entity::{Cookie, CookieView};
use crate::cookie_store::CookieStore;
use crate::store_model::{
    all_classified_by, borrowed_views, loaded_from, request_cookies, response_stored, saved_as,
};
use crate::raw_cookie::{raw_views, RawCookie, RawCookieView};
use crate::request_url::{parsed_url, RequestUrl, UrlParseError, UrlView};

verus! {

/// A request that can carry cookies.
pub trait SessionRequest: Sized {
    /// Adds the given cookies to the request.
    fn add_cookies(self, cookies: Vec<&Cookie>) -> Self;
}

/// A response that may set cookies.
pub trait SessionResponse {
    /// The cookies that the response sets, if it sets any.
    fn parse_set_cookie(&self) -> Option<Vec<RawCookie>>;

    /// The URL that the response came from, which after a redirect is not
    /// that of the request; `None` where it is not known.
    fn final_url(&self) -> Option<&RequestUrl>;
}

/// An HTTP client: it makes a request for each of the usual methods.
pub trait SessionClient {
    type Request: SessionRequest;

    type Response: SessionResponse;

    type SendError: From<UrlParseError>;

    /// A GET request to `url`.
    fn get_request(&self, url: &RequestUrl) -> Self::Request;

    /// A PUT request to `url`.
    fn put_request(&self, url: &RequestUrl) -> Self::Request;

    /// A HEAD request to `url`.
    fn head_request(&self, url: &RequestUrl) -> Self::Request;

    /// A DELETE request to `url`.
    fn delete_request(&self, url: &RequestUrl) -> Self::Request;

    /// A POST request to `url`.
    fn post_request(&self, url: &RequestUrl) -> Self::Request;
}

/// A client and the cookies it has received.
pub struct Session<C: SessionClient> {
    pub client: C,
    pub store: CookieStore,
}

/// A list of `n` answers of a classifier that holds nothing to be a public
/// suffix.
pub open spec fn none_public(n: nat) -> Seq<bool> {
    Seq::new(n, |i: int| false)
}

/// The store after a response to a request to `request_url` is received at
/// `now`. The cookies that the response sets, if any, are received one after
/// the other, as sent from the URL that the response came from, or from
/// `request_url` where that is not known. No suffix is held to be public.
pub open spec fn response_received(
    s: Seq<CookieView>,
    set_cookies: Option<Seq<RawCookieView>>,
    final_url: Option<UrlView>,
    request_url: UrlView,
    now: int,
) -> Seq<CookieView> {
    match set_cookies {
        Some(raws) => response_stored(
            s,
            raws,
            match final_url {
                Some(u) => u,
                None => request_url,
            },
            now,
            none_public(raws.len()),
        ),
        None => s,
    }
}

/// The cookies of a session that was loaded, or the error of loading.
pub open spec fn loaded_cookies<C: SessionClient, E>(r: Result<Session<C>, E>) -> Result<
    Seq<CookieView>,
    E,
> {
    match r {
        Ok(session) => Ok(session.store@),
        Err(e) => Err(e),
    }
}

/// The views of the cookies that a response sets, if it sets any.
pub open spec fn set_cookie_views(set_cookies: Option<Vec<RawCookie>>) -> Option<
    Seq<RawCookieView>,
> {
    match set_cookies {
        Some(cookies) => Some(raw_views(cookies@)),
        None => None,
    }
}

/// The view of the URL that a response came from, if it is known.
pub open spec fn final_url_view(final_url: Option<&RequestUrl>) -> Option<UrlView> {
    match final_url {
        Some(u) => Some(u@),
        None => None,
    }
}

/// Whether `r` is what `prepare_and_send` may return for `request` after
/// the cookies that the store `s` holds for a request to `url`, at some
/// time, were added to it.
pub open spec fn sent_with_cookies<C: SessionClient, P>(
    s: Seq<CookieView>,
    request: C::Request,
    url: UrlView,
    prepare_and_send: P,
    r: Result<C::Response, C::SendError>,
) -> bool where P: FnOnce(C::Request) -> Result<C::Response, C::SendError> {
    exists|now: int, cookies: Vec<&Cookie>, with_cookies: C::Request|
        {
            &&& borrowed_views(cookies@) == #[trigger] request_cookies(s, url, now)
            &&& #[trigger] call_ensures(
                <C::Request as SessionRequest>::add_cookies,
                (request, cookies),
                with_cookies,
            )
            &&& call_ensures(prepare_and_send, (with_cookies,), r)
        }
}

/// Whether `after` is the store that `before` becomes when `response`, the
/// response to a request to `url`, is received at some time: the cookies
/// that `response` says it sets, sent from the URL that it says it came from.
pub open spec fn stored_from<C: SessionClient>(
    before: Seq<CookieView>,
    after: Seq<CookieView>,
    response: C::Response,
    url: UrlView,
) -> bool {
    exists|set_cookies: Option<Vec<RawCookie>>, final_url: Option<&RequestUrl>, now: int|
        {
            &&& #[trigger] call_ensures(
                <C::Response as SessionResponse>::parse_set_cookie,
                (&response,),
                set_cookies,
            )
            &&& #[trigger] call_ensures(
                <C::Response as SessionResponse>::final_url,
                (&response,),
                final_url,
            )
            &&& after == #[trigger] response_received(
                before,
                set_cookie_views(set_cookies),
                final_url_view(final_url),
                url,
                now,
            )
        }
}

/// What a request to `url` made of the session: `r` is what
/// `prepare_and_send` returned for `request` with the cookies of the session
/// added, and `after` is the store that received the response, or the store
/// as it was where there was no response.
pub open spec fn request_run<C: SessionClient, P>(
    before: Seq<CookieView>,
    after: Seq<CookieView>,
    request: C::Request,
    url: UrlView,
    prepare_and_send: P,
    r: Result<C::Response, C::SendError>,
) -> bool where P: FnOnce(C::Request) -> Result<C::Response, C::SendError> {
    &&& sent_with_cookies::<C, P>(before, request, url, prepare_and_send, r)
    &&& match r {
        Ok(response) => stored_from::<C>(before, after, response, url),
        Err(_) => after == before,
    }
}

/// The answers of a classifier that never says yes are all no.
proof fn lemma_none_public<F: Fn(&str) -> bool>(
    is_public_suffix: &F,
    raws: Seq<RawCookieView>,
    url: UrlView,
    answers: Seq<bool>,
)
    requires
        all_classified_by(is_public_suffix, raws, url, answers),
        forall|d: &str, b: bool| call_ensures(is_public_suffix, (d,), b) ==> !b,
    ensures
        answers == none_public(raws.len()),
{
    assert forall|i: int| 0 <= i < answers.len() implies answers[i] == false by {
        assert(crate::cookie_entity::classified_by(is_public_suffix, raws[i], url, answers[i]));
    }
    assert(answers =~= none_public(raws.len()));
}

impl<C: SessionClient> Session<C> {
    /// A session of `client` that holds no cookies.
    pub fn new(client: C) -> (r: Session<C>)
        ensures
            r.client == client,
            r.store@ == Seq::<CookieView>::empty(),
    {
        Session { client, store: CookieStore::new() }
    }

    /// A session of `client` with the cookies loaded from `lines`, one
    /// record for each cookie, read by `cookie_from_str`. The clock is read
    /// once, and cookies that have ended by then are not kept.
    pub fn load<E, F: Fn(&str) -> Result<Cookie, E>>(
        client: C,
        lines: &Vec<String>,
        cookie_from_str: &F,
    ) -> (r: Result<Session<C>, E>)
        requires
            forall|l: &str| call_requires(cookie_from_str, (l,)),
        ensures
            r matches Ok(session) ==> session.client == client,
            exists|now: int| #[trigger]
                loaded_from(cookie_from_str, lines@, now, loaded_cookies(r)),
    {
        let now = now_utc();
        match CookieStore::load(lines, cookie_from_str, now) {
            Ok(store) => {
                let session = Session { client, store };
                assert(loaded_from(
                    cookie_from_str,
                    lines@,
                    now as int,
                    Ok::<Seq<CookieView>, E>(session.store@),
                ));
                Ok(session)
            },
            Err(e) => {
                assert(loaded_from(
                    cookie_from_str,
                    lines@,
                    now as int,
                    Err::<Seq<CookieView>, E>(e),
                ));
                Err(e)
            },
        }
    }

    /// Saves the cookies of the session: one record, made by
    /// `cookie_to_string`, for each cookie that outlives the session and has
    /// not ended when the clock is read.
    pub fn save<E, F: Fn(&Cookie) -> Result<String, E>>(&self, cookie_to_string: &F) -> (r: Result<
        Vec<String>,
        E,
    >)
        requires
            forall|c: &Cookie| call_requires(cookie_to_string, (c,)),
        ensures
            exists|now: int| #[trigger] saved_as(cookie_to_string, self.store@, now, r),
    {
        let now = now_utc();
        let r = self.store.save(now, cookie_to_string);
        assert(saved_as(cookie_to_string, self.store@, now as int, r));
        r
    }

    /// The cookies to send with a request to `request_url` at `now`, in the
    /// order of the request.
    pub fn request_cookies(&self, request_url: &RequestUrl, now: i64) -> (r: Vec<&Cookie>)
        ensures
            borrowed_views(r@) == request_cookies(self.store@, request_url@, now as int),
    {
        self.store.get_request_cookies(request_url, now)
    }

    /// Receives, at `now`, what a response to a request to `request_url`
    /// holds for the session: the cookies it sets and the URL it came from.
    pub fn receive(
        &mut self,
        set_cookies: &Option<Vec<RawCookie>>,
        final_url: Option<&RequestUrl>,
        request_url: &RequestUrl,
        now: i64,
    )
        ensures
            final(self).client == old(self).client,
            final(self).store@ == response_received(
                old(self).store@,
                set_cookie_views(*set_cookies),
                final_url_view(final_url),
                request_url@,
                now as int,
            ),
    {
        match set_cookies {
            Some(cookies) => {
                let from: &RequestUrl = match final_url {
                    Some(u) => u,
                    None => request_url,
                };
                let no_public_suffix = |d: &str| -> (b: bool)
                    ensures
                        !b,
                    { false };
                self.store.store_response_cookies(cookies, from, now, &no_public_suffix);
                proof {
                    let answers = choose|answers: Seq<bool>|
                        all_classified_by(&no_public_suffix, raw_views(cookies@), from@, answers)
                            && self.store@ == response_stored(
                            old(self).store@,
                            raw_views(cookies@),
                            from@,
                            now as int,
                            answers,
                        );
                    lemma_none_public(&no_public_suffix, raw_views(cookies@), from@, answers);
                }
            },
            None => {},
        }
    }

    /// Adds the cookies of the session to `request`, has `prepare_and_send`
    /// send it to `url`, and receives the cookies of the response.
    ///
    /// The clock is read twice: for the cookies to send, and when the
    /// response has come. Where sending fails the session keeps its cookies
    /// as they were.
    fn run_request<P>(&mut self, request: C::Request, url: &RequestUrl, prepare_and_send: P) -> (r:
        Result<C::Response, C::SendError>) where
        P: FnOnce(C::Request) -> Result<C::Response, C::SendError>,

        requires
            forall|q: C::Request| call_requires(prepare_and_send, (q,)),
        ensures
            final(self).client == old(self).client,
            request_run::<C, P>(
                old(self).store@,
                final(self).store@,
                request,
                url@,
                prepare_and_send,
                r,
            ),
    {
        let sent = now_utc();
        let cookies = self.request_cookies(url, sent);
        let ghost handed = cookies;
        let with_cookies = request.add_cookies(cookies);
        let r = prepare_and_send(with_cookies);
        assert(sent_with_cookies::<C, P>(old(self).store@, request, url@, prepare_and_send, r)) by {
            assert(borrowed_views(handed@) == request_cookies(old(self).store@, url@, sent as int));
            assert(call_ensures(
                <C::Request as SessionRequest>::add_cookies,
                (request, handed),
                with_cookies,
            ));
        }
        match r {
            Ok(response) => {
                let set_cookies = response.parse_set_cookie();
                let final_url = response.final_url();
                let received = now_utc();
                self.receive(&set_cookies, final_url, url, received);
                assert(stored_from::<C>(old(self).store@, self.store@, response, url@)) by {
                    assert(call_ensures(
                        <C::Response as SessionResponse>::parse_set_cookie,
                        (&response,),
                        set_cookies,
                    ));
                    assert(call_ensures(
                        <C::Response as SessionResponse>::final_url,
                        (&response,),
                        final_url,
                    ));
                    assert(self.store@ == response_received(
                        old(self).store@,
                        set_cookie_views(set_cookies),
                        final_url_view(final_url),
                        url@,
                        received as int,
                    ));
                }
                Ok(response)
            },
            Err(e) => Err(e),
        }
    }

    /// Sends a GET request to `url`, made ready and sent by
    /// `prepare_and_send`, with the cookies of the session, and receives the
    /// cookies of the response.
    ///
    /// Where `url` is no URL, nothing is sent: the error is the one that
    /// `SendError` makes of the parser's, and the session keeps its cookies.
    pub fn get_with<P>(&mut self, url: &str, prepare_and_send: P) -> (r: Result<
        C::Response,
        C::SendError,
    >) where P: FnOnce(C::Request) -> Result<C::Response, C::SendError>
        requires
            forall|q: C::Request| call_requires(prepare_and_send, (q,)),
        ensures
            final(self).client == old(self).client,
            match parsed_url(url@) {
                Some(u) => exists|parsed: RequestUrl, request: C::Request|
                    {
                        &&& parsed@ == u
                        &&& #[trigger] call_ensures(
                            <C as SessionClient>::get_request,
                            (&old(self).client, &parsed),
                            request,
                        )
                        &&& request_run::<C, P>(
                            old(self).store@,
                            final(self).store@,
                            request,
                            u,
                            prepare_and_send,
                            r,
                        )
                    },
                None => final(self).store@ == old(self).store@ && exists|e: UrlParseError|
                    r is Err && #[trigger] call_ensures(
                        <C::SendError as From<UrlParseError>>::from,
                        (e,),
                        r->Err_0,
                    ),
            },
    {
        match RequestUrl::parse(url) {
            Ok(parsed) => {
                let request = self.client.get_request(&parsed);
                assert(call_ensures(
                    <C as SessionClient>::get_request,
                    (&old(self).client, &parsed),
                    request,
                ));
                self.run_request(request, &parsed, prepare_and_send)
            },
            Err(e) => {
                let error = C::SendError::from(e);
                let r: Result<C::Response, C::SendError> = Err(error);
                assert(call_ensures(<C::SendError as From<UrlParseError>>::from, (e,), r->Err_0));
                r
            },
        }
    }

    /// Sends a PUT request to `url`, made ready and sent by
    /// `prepare_and_send`, with the cookies of the session, and receives the
    /// cookies of the response.
    ///
    /// Where `url` is no URL, nothing is sent: the error is the one that
    /// `SendError` makes of the parser's, and the session keeps its cookies.
    pub fn put_with<P>(&mut self, url: &str, prepare_and_send: P) -> (r: Result<
        C::Response,
        C::SendError,
    >) where P: FnOnce(C::Request) -> Result<C::Response, C::SendError>
        requires
            forall|q: C::Request| call_requires(prepare_and_send, (q,)),
        ensures
            final(self).client == old(self).client,
            match parsed_url(url@) {
                Some(u) => exists|parsed: RequestUrl, request: C::Request|
                    {
                        &&& parsed@ == u
                        &&& #[trigger] call_ensures(
                            <C as SessionClient>::put_request,
                            (&old(self).client, &parsed),
                            request,
                        )
                        &&& request_run::<C, P>(
                            old(self).store@,
                            final(self).store@,
                            request,
                            u,
                            prepare_and_send,
                            r,
                        )
                    },
                None => final(self).store@ == old(self).store@ && exists|e: UrlParseError|
                    r is Err && #[trigger] call_ensures(
                        <C::SendError as From<UrlParseError>>::from,
                        (e,),
                        r->Err_0,
                    ),
            },
    {
        match RequestUrl::parse(url) {
            Ok(parsed) => {
                let request = self.client.put_request(&parsed);
                assert(call_ensures(
                    <C as SessionClient>::put_request,
                    (&old(self).client, &parsed),
                    request,
                ));
                self.run_request(request, &parsed, prepare_and_send)
            },
            Err(e) => {
                let error = C::SendError::from(e);
                let r: Result<C::Response, C::SendError> = Err(error);
                assert(call_ensures(<C::SendError as From<UrlParseError>>::from, (e,), r->Err_0));
                r
            },
        }
    }

    /// Sends a HEAD request to `url`, made ready and sent by
    /// `prepare_and_send`, with the cookies of the session, and receives the
    /// cookies of the response.
    ///
    /// Where `url` is no URL, nothing is sent: the error is the one that
    /// `SendError` makes of the parser's, and the session keeps its cookies.
    pub fn head_with<P>(&mut self, url: &str, prepare_and_send: P) -> (r: Result<
        C::Response,
        C::SendError,
    >) where P: FnOnce(C::Request) -> Result<C::Response, C::SendError>
        requires
            forall|q: C::Request| call_requires(prepare_and_send, (q,)),
        ensures
            final(self).client == old(self).client,
            match parsed_url(url@) {
                Some(u) => exists|parsed: RequestUrl, request: C::Request|
                    {
                        &&& parsed@ == u
                        &&& #[trigger] call_ensures(
                            <C as SessionClient>::head_request,
                            (&old(self).client, &parsed),
                            request,
                        )
                        &&& request_run::<C, P>(
                            old(self).store@,
                            final(self).store@,
                            request,
                            u,
                            prepare_and_send,
                            r,
                        )
                    },
                None => final(self).store@ == old(self).store@ && exists|e: UrlParseError|
                    r is Err && #[trigger] call_ensures(
                        <C::SendError as From<UrlParseError>>::from,
                        (e,),
                        r->Err_0,
                    ),
            },
    {
        match RequestUrl::parse(url) {
            Ok(parsed) => {
                let request = self.client.head_request(&parsed);
                assert(call_ensures(
                    <C as SessionClient>::head_request,
                    (&old(self).client, &parsed),
                    request,
                ));
                self.run_request(request, &parsed, prepare_and_send)
            },
            Err(e) => {
                let error = C::SendError::from(e);
                let r: Result<C::Response, C::SendError> = Err(error);
                assert(call_ensures(<C::SendError as From<UrlParseError>>::from, (e,), r->Err_0));
                r
            },
        }
    }

    /// Sends a DELETE request to `url`, made ready and sent by
    /// `prepare_and_send`, with the cookies of the session, and receives the
    /// cookies of the response.
    ///
    /// Where `url` is no URL, nothing is sent: the error is the one that
    /// `SendError` makes of the parser's, and the session keeps its cookies.
    pub fn delete_with<P>(&mut self, url: &str, prepare_and_send: P) -> (r: Result<
        C::Response,
        C::SendError,
    >) where P: FnOnce(C::Request) -> Result<C::Response, C::SendError>
        requires
            forall|q: C::Request| call_requires(prepare_and_send, (q,)),
        ensures
            final(self).client == old(self).client,
            match parsed_url(url@) {
                Some(u) => exists|parsed: RequestUrl, request: C::Request|
                    {
                        &&& parsed@ == u
                        &&& #[trigger] call_ensures(
                            <C as SessionClient>::delete_request,
                            (&old(self).client, &parsed),
                            request,
                        )
                        &&& request_run::<C, P>(
                            old(self).store@,
                            final(self).store@,
                            request,
                            u,
                            prepare_and_send,
                            r,
                        )
                    },
                None => final(self).store@ == old(self).store@ && exists|e: UrlParseError|
                    r is Err && #[trigger] call_ensures(
                        <C::SendError as From<UrlParseError>>::from,
                        (e,),
                        r->Err_0,
                    ),
            },
    {
        match RequestUrl::parse(url) {
            Ok(parsed) => {
                let request = self.client.delete_request(&parsed);
                assert(call_ensures(
                    <C as SessionClient>::delete_request,
                    (&old(self).client, &parsed),
                    request,
                ));
                self.run_request(request, &parsed, prepare_and_send)
            },
            Err(e) => {
                let error = C::SendError::from(e);
                let r: Result<C::Response, C::SendError> = Err(error);
                assert(call_ensures(<C::SendError as From<UrlParseError>>::from, (e,), r->Err_0));
                r
            },
        }
    }

    /// Sends a POST request to `url`, made ready and sent by
    /// `prepare_and_send`, with the cookies of the session, and receives the
    /// cookies of the response.
    ///
    /// Where `url` is no URL, nothing is sent: the error is the one that
    /// `SendError` makes of the parser's, and the session keeps its cookies.
    pub fn post_with<P>(&mut self, url: &str, prepare_and_send: P) -> (r: Result<
        C::Response,
        C::SendError,
    >) where P: FnOnce(C::Request) -> Result<C::Response, C::SendError>
        requires
            forall|q: C::Request| call_requires(prepare_and_send, (q,)),
        ensures
            final(self).client == old(self).client,
            match parsed_url(url@) {
                Some(u) => exists|parsed: RequestUrl, request: C::Request|
                    {
                        &&& parsed@ == u
                        &&& #[trigger] call_ensures(
                            <C as SessionClient>::post_request,
                            (&old(self).client, &parsed),
                            request,
                        )
                        &&& request_run::<C, P>(
                            old(self).store@,
                            final(self).store@,
                            request,
                            u,
                            prepare_and_send,
                            r,
                        )
                    },
                None => final(self).store@ == old(self).store@ && exists|e: UrlParseError|
                    r is Err && #[trigger] call_ensures(
                        <C::SendError as From<UrlParseError>>::from,
                        (e,),
                        r->Err_0,
                    ),
            },
    {
        match RequestUrl::parse(url) {
            Ok(parsed) => {
                let request = self.client.post_request(&parsed);
                assert(call_ensures(
                    <C as SessionClient>::post_request,
                    (&old(self).client, &parsed),
                    request,
                ));
                self.run_request(request, &parsed, prepare_and_send)
            },
            Err(e) => {
                let error = C::SendError::from(e);
                let r: Result<C::Response, C::SendError> = Err(error);
                assert(call_ensures(<C::SendError as From<UrlParseError>>::from, (e,), r->Err_0));
                r
            },
        }
    }
}

} // verus!
