//! The client: base URL, credentials and default headers, and the requests
//! built from them.

use vstd::prelude::*;
use vstd::string::{StringExecFns, StringSliceAdditionalSpecFns};
use crate::encoding::{make_query, query_bytes, query_text};
use crate::error::{Error, RestPath};
use crate::request::{Method, Request};
use crate::text::push_char;

verus! {

/// Query parameters: names and values, in the order they are to appear.
pub type Query<'a> = [(&'a str, &'a str)];

/// The text of an optional string.
pub open spec fn opt_text(o: Option<String>) -> Option<Seq<char>> {
    match o {
        Some(s) => Some(s@),
        None => None,
    }
}

/// The texts of name and value pairs.
pub open spec fn pairs_text(hs: Seq<(String, String)>) -> Seq<(Seq<char>, Seq<char>)> {
    hs.map_values(|h: (String, String)| (h.0@, h.1@))
}

/// The texts of an optional pair of strings.
pub open spec fn opt_pair_text(o: Option<(String, String)>) -> Option<(Seq<char>, Seq<char>)> {
    match o {
        Some(p) => Some((p.0@, p.1@)),
        None => None,
    }
}

/// A parsed absolute URL, in parts: the text before its path (scheme and
/// authority), its query and its fragment; `None` where the text is no URL.
pub uninterp spec fn parsed_url(s: Seq<char>) -> Option<
    (Seq<char>, Option<Seq<char>>, Option<Seq<char>>),
>;

/// Relies on url's `Url::parse`, and reads of the parsed URL its text before
/// the path (`Position::BeforePath`), its query and its fragment.
#[verifier::external_body]
fn parse_url(s: &str) -> (r: Option<(String, Option<String>, Option<String>)>)
    ensures
        r is Some == parsed_url(s@) is Some,
        r is Some ==> r->Some_0.0@ == parsed_url(s@)->Some_0.0 && opt_text(r->Some_0.1)
            == parsed_url(s@)->Some_0.1 && opt_text(r->Some_0.2) == parsed_url(s@)->Some_0.2,
{
    match url::Url::parse(s) {
        Ok(u) => Some(
            (
                u[..url::Position::BeforePath].to_string(),
                u.query().map(String::from),
                u.fragment().map(String::from),
            ),
        ),
        Err(_) => None,
    }
}

/// The path that a URL beginning with `origin` has once its path is set to
/// `path`; `None` where `origin` does not parse.
pub uninterp spec fn path_after_set(origin: Seq<char>, path: Seq<char>) -> Option<Seq<char>>;

/// The URL text that setting `path` after `origin` can make stays within the
/// 32-bit offsets that url keeps: each byte of the path takes at most three
/// characters, and a leading `/` may be added.
pub open spec fn fits_url_offsets(origin: Seq<char>, path: Seq<char>) -> bool {
    vstd::utf8::encode_utf8(origin).len() + 3 * vstd::utf8::encode_utf8(path).len() + 1
        <= 4294967295
}

/// Relies on url's `Url::set_path` (on the URL that `Url::parse` makes of
/// `origin`) and reads the resulting path with `Url::path`. `set_path`
/// panics where the URL text outgrows url's 32-bit offsets, hence the bound.
#[verifier::external_body]
fn set_path(origin: &str, path: &str) -> (r: Option<String>)
    requires
        fits_url_offsets(origin@, path@),
    ensures
        opt_text(r) == path_after_set(origin@, path@),
{
    match url::Url::parse(origin) {
        Ok(mut u) => {
            u.set_path(path);
            Some(u.path().to_string())
        },
        Err(_) => None,
    }
}

/// Whether hyper takes the text as a request URI.
pub uninterp spec fn uri_accepted(s: Seq<char>) -> bool;

/// Relies on hyper's `Uri` parser (`FromStr`): whether the text parses.
#[verifier::external_body]
fn accepts_uri(s: &str) -> (r: bool)
    ensures
        r == uri_accepted(s@),
{
    s.parse::<hyper::Uri>().is_ok()
}

/// The query of the request URI: the base URL's query, then the added pairs,
/// with `&` between the two where both have text.
pub open spec fn merged_query(
    base: Option<Seq<char>>,
    added: Option<Seq<(Seq<u8>, Seq<u8>)>>,
) -> Option<Seq<char>> {
    if added is None || added->Some_0.len() == 0 {
        base
    } else {
        let t = query_text(added->Some_0);
        match base {
            None => Some(t),
            Some(b) => if b.len() == 0 {
                Some(t)
            } else {
                Some(b + seq!['&'] + t)
            },
        }
    }
}

/// The text of a URI from its parts.
pub open spec fn uri_text(
    origin: Seq<char>,
    path: Seq<char>,
    query: Option<Seq<char>>,
    fragment: Option<Seq<char>>,
) -> Seq<char> {
    origin + path + match query {
        Some(q) => seq!['?'] + q,
        None => Seq::empty(),
    } + match fragment {
        Some(f) => seq!['#'] + f,
        None => Seq::empty(),
    }
}


/// ASCII upper-case letters as lower case; other bytes as they are.
pub open spec fn lower_byte(b: u8) -> u8 {
    if 65 <= b && b <= 90 {
        (b + 32) as u8
    } else {
        b
    }
}

/// Header names match when their bytes agree but for ASCII case.
pub open spec fn same_name(a: Seq<char>, b: Seq<char>) -> bool {
    let x = vstd::utf8::encode_utf8(a);
    let y = vstd::utf8::encode_utf8(b);
    x.len() == y.len() && forall|i: int| 0 <= i < x.len() ==> lower_byte(x[i]) == lower_byte(y[i])
}

/// No two headers share a name.
pub open spec fn distinct_names(hs: Seq<(Seq<char>, Seq<char>)>) -> bool {
    forall|i: int, j: int|
        0 <= i < hs.len() && 0 <= j < hs.len() && i != j ==> !same_name(hs[i].0, hs[j].0)
}

/// The headers after setting `name` to `value`: a header of the same name is
/// replaced in its place, else the header comes last.
pub open spec fn header_set(
    hs: Seq<(Seq<char>, Seq<char>)>,
    name: Seq<char>,
    value: Seq<char>,
) -> Seq<(Seq<char>, Seq<char>)> {
    if exists|i: int| 0 <= i < hs.len() && same_name(hs[i].0, name) {
        let i = choose|i: int| 0 <= i < hs.len() && same_name(hs[i].0, name);
        hs.update(i, (name, value))
    } else {
        hs.push((name, value))
    }
}

/// Compares two header names, ignoring ASCII case.
pub fn names_match(a: &str, b: &str) -> (r: bool)
    ensures
        r == same_name(a@, b@),
{
    let x = a.as_bytes();
    let y = b.as_bytes();
    if x.len() != y.len() {
        return false;
    }
    let mut i: usize = 0;
    while i < x.len()
        invariant
            x@ == a.spec_bytes(),
            y@ == b.spec_bytes(),
            x@.len() == y@.len(),
            0 <= i <= x@.len(),
            forall|k: int| 0 <= k < i ==> lower_byte(x@[k]) == lower_byte(y@[k]),
        decreases x@.len() - i,
    {
        let p = x[i];
        let q = y[i];
        let lp = if 65 <= p && p <= 90 { p + 32 } else { p };
        let lq = if 65 <= q && q <= 90 { q + 32 } else { q };
        if lp != lq {
            return false;
        }
        i = i + 1;
    }
    true
}

/// Matching header names is symmetric and transitive.
pub proof fn lemma_same_name_symmetric_transitive()
    ensures
        forall|a: Seq<char>, b: Seq<char>| same_name(a, b) ==> same_name(b, a),
        forall|a: Seq<char>, b: Seq<char>, c: Seq<char>|
            same_name(a, b) && same_name(b, c) ==> same_name(a, c),
{
    assert forall|a: Seq<char>, b: Seq<char>, c: Seq<char>|
        same_name(a, b) && same_name(b, c) implies same_name(a, c) by {
        let x = vstd::utf8::encode_utf8(a);
        let y = vstd::utf8::encode_utf8(b);
        let z = vstd::utf8::encode_utf8(c);
        assert forall|i: int| 0 <= i < x.len() implies lower_byte(x[i]) == lower_byte(z[i]) by {
            assert(lower_byte(x[i]) == lower_byte(y[i]));
            assert(lower_byte(y[i]) == lower_byte(z[i]));
        }
    }
}

/// What a client holds, as values.
pub struct ClientView {
    /// Scheme and authority of the base URL.
    pub origin: Seq<char>,
    /// Query of the base URL, kept ahead of added pairs.
    pub query: Option<Seq<char>>,
    /// Fragment of the base URL.
    pub fragment: Option<Seq<char>>,
    /// User name and password for Basic authentication.
    pub auth: Option<(Seq<char>, Seq<char>)>,
    /// Default headers, names and values.
    pub headers: Seq<(Seq<char>, Seq<char>)>,
}

/// REST client: a base URL, optional Basic credentials and default headers.
pub struct RestClient {
    origin: String,
    query: Option<String>,
    fragment: Option<String>,
    auth: Option<(String, String)>,
    headers: Vec<(String, String)>,
}

impl View for RestClient {
    type V = ClientView;

    closed spec fn view(&self) -> ClientView {
        ClientView {
            origin: self.origin@,
            query: opt_text(self.query),
            fragment: opt_text(self.fragment),
            auth: opt_pair_text(self.auth),
            headers: pairs_text(self.headers@),
        }
    }
}

/// The request URI for a resolved path and an optional query, as `make_uri`
/// gives it.
pub open spec fn uri_for(c: ClientView, path: Seq<char>, query: Option<Seq<(Seq<u8>, Seq<u8>)>>) -> Result<
    Seq<char>,
    (),
> {
    if !fits_url_offsets(c.origin, path) {
        Err(())
    } else {
        match path_after_set(c.origin, path) {
        None => Err(()),
        Some(p) => {
            let t = uri_text(c.origin, p, merged_query(c.query, query), c.fragment);
            if uri_accepted(t) {
                Ok(t)
            } else {
                Err(())
            }
        },
        }
    }
}

/// A request URI keeps the base URL's scheme and authority, and the path
/// that follows them is the one that setting the resolved path gives: the
/// base URL's own path is replaced, not extended.
pub proof fn law_uri_keeps_origin(
    c: ClientView,
    path: Seq<char>,
    query: Option<Seq<(Seq<u8>, Seq<u8>)>>,
)
    ensures
        uri_for(c, path, query) is Ok ==> ({
            let t = uri_for(c, path, query)->Ok_0;
            let p = path_after_set(c.origin, path)->Some_0;
            &&& path_after_set(c.origin, path) is Some
            &&& t.take(c.origin.len() as int) == c.origin
            &&& t.subrange(c.origin.len() as int, c.origin.len() + p.len() as int) == p
        }),
{
    if uri_for(c, path, query) is Ok {
        let t = uri_for(c, path, query)->Ok_0;
        let p = path_after_set(c.origin, path)->Some_0;
        assert(t.take(c.origin.len() as int) =~= c.origin);
        assert(t.subrange(c.origin.len() as int, c.origin.len() + p.len() as int) =~= p);
    }
}

/// The bytes of an optional query.
pub open spec fn opt_query_bytes(q: Option<&Query>) -> Option<Seq<(Seq<u8>, Seq<u8>)>> {
    match q {
        Some(q) => Some(query_bytes(q@)),
        None => None,
    }
}

fn copy_pair(o: &Option<(String, String)>) -> (r: Option<(String, String)>)
    ensures
        opt_pair_text(r) == opt_pair_text(*o),
{
    match o {
        Some(p) => Some((p.0.clone(), p.1.clone())),
        None => None,
    }
}

fn copy_pairs(hs: &Vec<(String, String)>) -> (r: Vec<(String, String)>)
    ensures
        pairs_text(r@) == pairs_text(hs@),
{
    let mut r: Vec<(String, String)> = Vec::new();
    let mut i: usize = 0;
    while i < hs.len()
        invariant
            0 <= i <= hs@.len(),
            r@.len() == i,
            pairs_text(r@) == pairs_text(hs@).take(i as int),
        decreases hs@.len() - i,
    {
        let ghost before = r@;
        let name = hs[i].0.clone();
        let value = hs[i].1.clone();
        r.push((name, value));
        proof {
            assert(r@ == before.push((name, value)));
            assert(r@[i as int] == (name, value));
            assert(pairs_text(r@)[i as int] == (hs@[i as int].0@, hs@[i as int].1@));
            assert forall|k: int| 0 <= k < i implies pairs_text(r@)[k] == pairs_text(before)[k] by {
                assert(r@[k] == before[k]);
            }
            assert(pairs_text(r@) =~= pairs_text(hs@).take(i + 1));
        }
        i = i + 1;
    }
    assert(pairs_text(hs@).take(hs@.len() as int) =~= pairs_text(hs@));
    r
}

/// The media type of a JSON body.
pub open spec fn json_type() -> Seq<char> {
    seq!['a', 'p', 'p', 'l', 'i', 'c', 'a', 't', 'i', 'o', 'n', '/', 'j', 's', 'o', 'n']
}

/// Whether a default header gives way to a header of the request itself:
/// `Authorization` where credentials are set, `Content-Length` and
/// `Content-Type` where there is a body.
pub open spec fn overridden(name: Seq<char>, has_auth: bool, has_body: bool) -> bool {
    (has_auth && same_name(name, "Authorization"@)) || (has_body && (same_name(
        name,
        "Content-Length"@,
    ) || same_name(name, "Content-Type"@)))
}

/// The default headers that go on the wire, in their order: all but those
/// that give way.
pub open spec fn kept_headers(
    hs: Seq<(Seq<char>, Seq<char>)>,
    has_auth: bool,
    has_body: bool,
) -> Seq<(Seq<char>, Seq<char>)>
    decreases hs.len(),
{
    if hs.len() == 0 {
        Seq::empty()
    } else {
        let rest = kept_headers(hs.drop_last(), has_auth, has_body);
        if overridden(hs.last().0, has_auth, has_body) {
            rest
        } else {
            rest.push(hs.last())
        }
    }
}

fn keep_headers(hs: &Vec<(String, String)>, has_auth: bool, has_body: bool) -> (r: Vec<
    (String, String),
>)
    ensures
        pairs_text(r@) == kept_headers(pairs_text(hs@), has_auth, has_body),
{
    let ghost all = pairs_text(hs@);
    let mut r: Vec<(String, String)> = Vec::new();
    let mut i: usize = 0;
    while i < hs.len()
        invariant
            all == pairs_text(hs@),
            0 <= i <= hs@.len(),
            pairs_text(r@) == kept_headers(all.take(i as int), has_auth, has_body),
        decreases hs@.len() - i,
    {
        let name = hs[i].0.as_str();
        let gives_way = (has_auth && names_match(name, "Authorization")) || (has_body && (
        names_match(name, "Content-Length") || names_match(name, "Content-Type")));
        proof {
            assert(all.take(i + 1).drop_last() =~= all.take(i as int));
            assert(all.take(i + 1).last() == all[i as int]);
        }
        if !gives_way {
            let ghost before = r@;
            r.push((hs[i].0.clone(), hs[i].1.clone()));
            proof {
                assert(pairs_text(r@) =~= pairs_text(before).push(all[i as int]));
            }
        }
        i = i + 1;
    }
    assert(all.take(hs@.len() as int) =~= all);
    r
}

/// `req` is the request that a client holding `c` builds with `method`,
/// the URI `uri` and the optional `body`.
pub open spec fn request_of(
    req: Request,
    c: ClientView,
    method: Method,
    uri: Seq<char>,
    body: Option<String>,
) -> bool {
    &&& req.method == method
    &&& req.uri@ == uri
    &&& pairs_text(req.headers@) == kept_headers(c.headers, c.auth is Some, body is Some)
    &&& opt_pair_text(req.auth) == c.auth
    &&& req.body == body
    &&& req.content_length == match body {
        Some(b) => Some(vstd::utf8::encode_utf8(b@).len() as usize as u64),
        None => None::<u64>,
    }
    &&& opt_text(req.content_type) == match body {
        Some(_) => Some(json_type()),
        None => None::<Seq<char>>,
    }
}

fn opt_clone(o: &Option<String>) -> (r: Option<String>)
    ensures
        opt_text(r) == opt_text(*o),
{
    match o {
        Some(s) => Some(s.clone()),
        None => None,
    }
}

impl RestClient {
    /// Creates a client for the given base URL.
    pub fn new(url: &str) -> (r: Result<RestClient, Error>)
        ensures
            parsed_url(url@) is None ==> r == Err::<RestClient, Error>(Error::UrlError),
            parsed_url(url@) matches Some(p) ==> r is Ok && r->Ok_0@ == (ClientView {
                origin: p.0,
                query: p.1,
                fragment: p.2,
                auth: None,
                headers: Seq::empty(),
            }),
    {
        match parse_url(url) {
            None => Err(Error::UrlError),
            Some((origin, query, fragment)) => {
                let c = RestClient { origin, query, fragment, auth: None, headers: Vec::new() };
                proof {
                    assert(c@.headers =~= Seq::<(Seq<char>, Seq<char>)>::empty());
                }
                Ok(c)
            },
        }
    }

    /// Sets the credentials for HTTP Basic authentication.
    pub fn set_auth(&mut self, user: &str, pass: &str)
        ensures
            final(self)@ == (ClientView { auth: Some((user@, pass@)), ..old(self)@ }),
    {
        proof {
            use_type_invariant(&*self);
        }
        self.auth = Some((user.to_owned(), pass.to_owned()));
    }

    /// No two default headers share a name.
    #[verifier::type_invariant]
    spec fn distinct_headers(&self) -> bool {
        distinct_names(pairs_text(self.headers@))
    }

    /// Sets a default header from its name and value, replacing one of the
    /// same name (ASCII case aside). It goes with every later request until
    /// the headers are cleared.
    pub fn set_header_raw(&mut self, name: &str, value: &str)
        ensures
            distinct_names(final(self)@.headers),
            final(self)@ == (ClientView {
                headers: header_set(old(self)@.headers, name@, value@),
                ..old(self)@
            }),
    {
        proof {
            use_type_invariant(&*self);
        }
        let ghost hs = self@.headers;
        let mut i: usize = 0;
        while i < self.headers.len()
            invariant
                self@ == old(self)@,
                hs == self@.headers,
                distinct_names(hs),
                0 <= i <= hs.len(),
                forall|k: int| 0 <= k < i ==> !same_name(hs[k].0, name@),
            decreases hs.len() - i,
        {
            if names_match(self.headers[i].0.as_str(), name) {
                proof {
                    lemma_same_name_symmetric_transitive();
                    assert(hs[i as int].0 == self.headers@[i as int].0@);
                    assert(same_name(hs[i as int].0, name@));
                    let c = choose|k: int| 0 <= k < hs.len() && same_name(hs[k].0, name@);
                    if c != i {
                        assert(same_name(hs[c].0, hs[i as int].0));
                    }
                }
                let mut h = copy_pairs(&self.headers);
                let ghost before = h@;
                h[i] = (name.to_owned(), value.to_owned());
                proof {
                    assert(h@ == before.update(i as int, h@[i as int]));
                    assert(pairs_text(h@) =~= hs.update(i as int, (name@, value@)));
                    let n = hs.update(i as int, (name@, value@));
                    assert forall|a: int, b: int|
                        0 <= a < n.len() && 0 <= b < n.len() && a != b implies !same_name(
                        n[a].0,
                        n[b].0,
                    ) by {
                        if a == i {
                            if same_name(n[a].0, n[b].0) {
                                assert(same_name(hs[b].0, hs[i as int].0));
                            }
                        } else if b == i {
                            if same_name(n[a].0, n[b].0) {
                                assert(same_name(hs[a].0, hs[i as int].0));
                            }
                        }
                    }
                }
                self.headers = h;
                return;
            }
            i = i + 1;
        }
        let mut h = copy_pairs(&self.headers);
        h.push((name.to_owned(), value.to_owned()));
        proof {
            lemma_same_name_symmetric_transitive();
            assert(pairs_text(h@) =~= hs.push((name@, value@)));
        }
        self.headers = h;
    }

    /// Builds the request to `path`: its URI as `make_uri` makes it, the
    /// client's headers and credentials, and for a body its JSON content
    /// headers.
    pub fn build_request(
        &self,
        method: Method,
        path: &str,
        query: Option<&Query>,
        body: Option<String>,
    ) -> (r: Result<Request, Error>)
        ensures
            uri_for(self@, path@, opt_query_bytes(query)) matches Ok(t) ==> r is Ok && request_of(
                r->Ok_0,
                self@,
                method,
                t,
                body,
            ),
            uri_for(self@, path@, opt_query_bytes(query)) is Err ==> r == Err::<Request, Error>(
                Error::UrlError,
            ),
    {
        let uri = match self.make_uri(path, query) {
            Ok(u) => u,
            Err(e) => {
                return Err(e);
            },
        };
        let (content_length, content_type) = match &body {
            Some(b) => {
                let n = b.as_str().len() as u64;
                proof {
                    reveal_strlit("application/json");
                }
                (Some(n), Some("application/json".to_owned()))
            },
            None => (None, None),
        };
        let req = Request {
            method,
            uri,
            headers: keep_headers(&self.headers, self.auth.is_some(), body.is_some()),
            auth: copy_pair(&self.auth),
            body,
            content_length,
            content_type,
        };
        assert(opt_pair_text(req.auth) == self@.auth);
        assert(opt_text(req.content_type) == match req.body {
            Some(_) => Some(json_type()),
            None => None::<Seq<char>>,
        });
        assert(req.content_length == match req.body {
            Some(b) => Some(vstd::utf8::encode_utf8(b@).len() as usize as u64),
            None => None::<u64>,
        });
        Ok(req)
    }

    /// Builds the request for the resource of `T` that `params` names: the
    /// path comes from `T::get_path`, and an error there is returned as it
    /// is, before any URI is built. The client is left as it was.
    pub fn make_request<U, T: RestPath<U>>(
        &mut self,
        method: Method,
        params: U,
        query: Option<&Query>,
        body: Option<String>,
    ) -> (r: Result<Request, Error>)
        ensures
            *final(self) == *old(self),
            r matches Ok(req) ==> exists|p: Seq<char>|
                #[trigger] uri_for(old(self)@, p, opt_query_bytes(query)) == Ok::<Seq<char>, ()>(req.uri@)
                    && request_of(req, old(self)@, method, req.uri@, body),
    {
        let path = match T::get_path(params) {
            Ok(p) => p,
            Err(e) => {
                return Err(e);
            },
        };
        self.build_request(method, path.as_str(), query, body)
    }

    /// Builds a request that carries a JSON body, from the outcome of
    /// encoding the value to send: a failed encoding is `ParseError`, and no
    /// path is resolved then; else as `make_request` with that body.
    pub fn body_request<U, T: RestPath<U>>(
        &mut self,
        method: Method,
        params: U,
        query: Option<&Query>,
        encoded: Result<String, ()>,
    ) -> (r: Result<Request, Error>)
        ensures
            *final(self) == *old(self),
            encoded is Err ==> r == Err::<Request, Error>(Error::ParseError),
            r matches Ok(req) ==> encoded is Ok && exists|p: Seq<char>|
                #[trigger] uri_for(old(self)@, p, opt_query_bytes(query)) == Ok::<Seq<char>, ()>(req.uri@)
                    && request_of(req, old(self)@, method, req.uri@, Some(encoded->Ok_0)),
    {
        match encoded {
            Err(_) => Err(Error::ParseError),
            Ok(body) => self.make_request::<U, T>(method, params, query, Some(body)),
        }
    }

    /// Removes all default headers.
    pub fn clear_headers(&mut self)
        ensures
            final(self)@ == (ClientView { headers: Seq::empty(), ..old(self)@ }),
    {
        self.headers = Vec::new();
        proof {
            assert(self@.headers =~= Seq::<(Seq<char>, Seq<char>)>::empty());
        }
    }

    /// The URI of a request to `path`, with the query pairs, if any, after
    /// the base URL's own query.
    pub fn make_uri(&self, path: &str, query: Option<&Query>) -> (r: Result<String, Error>)
        ensures
            uri_for(self@, path@, opt_query_bytes(query)) matches Ok(t) ==> r is Ok && r->Ok_0@
                == t,
            uri_for(self@, path@, opt_query_bytes(query)) is Err ==> r == Err::<String, Error>(
                Error::UrlError,
            ),
    {
        let o = self.origin.as_str().as_bytes().len() as u64;
        let n = path.as_bytes().len() as u64;
        if o > 4294967294 || n > (4294967294 - o) / 3 {
            return Err(Error::UrlError);
        }
        let p = match set_path(self.origin.as_str(), path) {
            None => {
                return Err(Error::UrlError);
            },
            Some(p) => p,
        };
        let mut q = opt_clone(&self.query);
        match query {
            Some(pairs) => {
                if pairs.len() > 0 {
                    let added = make_query(pairs);
                    q = match q {
                        None => Some(added),
                        Some(mut b) => {
                            if b.as_str().is_empty() {
                                Some(added)
                            } else {
                                push_char(&mut b, '&');
                                b.append(added.as_str());
                                Some(b)
                            }
                        },
                    };
                }
            },
            None => {},
        }
        let ghost qv = opt_text(q);
        assert(qv == merged_query(self@.query, opt_query_bytes(query)));
        let mut u = self.origin.clone();
        u.append(p.as_str());
        match q {
            Some(q) => {
                push_char(&mut u, '?');
                u.append(q.as_str());
            },
            None => {},
        }
        match &self.fragment {
            Some(f) => {
                push_char(&mut u, '#');
                u.append(f.as_str());
            },
            None => {},
        }
        assert(u@ =~= uri_text(self@.origin, p@, qv, self@.fragment));
        if accepts_uri(u.as_str()) {
            Ok(u)
        } else {
            Err(Error::UrlError)
        }
    }
}

} // verus!
