//! Request and response envelopes, the route table, and path matching.
use vstd::prelude::*;
use crate::settings::Settings;
use crate::strmap::StrMap;
use crate::template::text::{spec_split, spec_trim_char, split_str, skip_chars, str_eq, trim_char};

verus! {

/// An incoming request: the path parameters bound by the route pattern, and
/// the raw body text.
pub struct Request {
    pub params: StrMap,
    pub body: String,
}

/// An outgoing response envelope.
pub struct Response {
    pub status_code: u16,
    pub body: String,
    pub headers: StrMap,
}

/// The headers of an HTML response: only its content type.
pub open spec fn html_headers() -> Map<Seq<char>, Seq<char>> {
    Map::empty().insert("Content-Type"@, "text/html; charset=utf-8"@)
}

impl Response {
    /// A plain success response with the given body and no headers.
    pub fn ok(body: &str) -> (r: Self)
        ensures
            r.status_code == 200,
            r.body@ == body@,
            r.headers@ == Map::<Seq<char>, Seq<char>>::empty(),
    {
        Response { status_code: 200, body: body.to_owned(), headers: StrMap::new() }
    }

    /// A forbidden response with the given body and no headers.
    pub fn forbidden(body: &str) -> (r: Self)
        ensures
            r.status_code == 403,
            r.body@ == body@,
            r.headers@ == Map::<Seq<char>, Seq<char>>::empty(),
    {
        Response { status_code: 403, body: body.to_owned(), headers: StrMap::new() }
    }

    /// A not-found response with no headers.
    pub fn not_found() -> (r: Self)
        ensures
            r.status_code == 404,
            r.body@ == "404 Not Found"@,
            r.headers@ == Map::<Seq<char>, Seq<char>>::empty(),
    {
        Response { status_code: 404, body: "404 Not Found".to_owned(), headers: StrMap::new() }
    }

    /// HTML response with status 200 and the HTML content type.
    pub fn html(body: &str) -> (r: Self)
        ensures
            r.status_code == 200,
            r.body@ == body@,
            r.headers@ == html_headers(),
    {
        let mut headers = StrMap::new();
        headers.insert("Content-Type".to_owned(), "text/html; charset=utf-8".to_owned());
        Response { status_code: 200, body: body.to_owned(), headers }
    }

    /// Builder for setting a different status code.
    pub fn with_status(self, status: u16) -> (r: Self)
        ensures
            r.status_code == status,
            r.body@ == self.body@,
            r.headers@ == self.headers@,
    {
        Response { status_code: status, body: self.body, headers: self.headers }
    }

    /// Builder for adding or overwriting a header.
    pub fn add_header(self, key: &str, val: &str) -> (r: Self)
        ensures
            r.status_code == self.status_code,
            r.body@ == self.body@,
            r.headers@ == self.headers@.insert(key@, val@),
    {
        let mut headers = self.headers;
        headers.insert(key.to_owned(), val.to_owned());
        Response { status_code: self.status_code, body: self.body, headers }
    }
}

/// A registered route: its method, its path pattern, and the name of the
/// handler registered for it. The handler itself is a callback of the
/// serving layer and lives outside the verified core.
pub struct Route {
    pub method: String,
    pub path: String,
    pub handler_name: String,
}

/// The router is a list of registered routes with the process settings.
pub struct Router {
    pub routes: Vec<Route>,
    pub settings: Settings,
}

impl Router {
    pub fn new(settings: Settings) -> (r: Self)
        ensures
            r.routes@.len() == 0,
            r.settings == settings,
    {
        Router { routes: Vec::new(), settings }
    }

    /// Register a route.
    pub fn add_route(&mut self, method: &str, path: &str, handler_name: &str)
        ensures
            final(self).routes@.len() == old(self).routes@.len() + 1,
            final(self).routes@.drop_last() == old(self).routes@,
            final(self).routes@.last().method@ == method@,
            final(self).routes@.last().path@ == path@,
            final(self).routes@.last().handler_name@ == handler_name@,
            final(self).settings == old(self).settings,
    {
        self.routes.push(
            Route {
                method: method.to_owned(),
                path: path.to_owned(),
                handler_name: handler_name.to_owned(),
            },
        );
        proof {
            assert(self.routes@.drop_last() =~= old(self).routes@);
        }
    }

    /// List all registered routes as (method, path) pairs.
    pub fn list_routes(&self) -> (r: Vec<(String, String)>)
        ensures
            r@.len() == self.routes@.len(),
            forall|i: int|
                0 <= i < r@.len() ==> (#[trigger] r@[i]).0@ == self.routes@[i].method@ && r@[i].1@
                    == self.routes@[i].path@,
    {
        let n = self.routes.len();
        let mut out: Vec<(String, String)> = Vec::new();
        let mut i: usize = 0;
        while i < n
            invariant
                n == self.routes@.len(),
                0 <= i <= n,
                out@.len() == i,
                forall|j: int|
                    0 <= j < i ==> (#[trigger] out@[j]).0@ == self.routes@[j].method@ && out@[j].1@
                        == self.routes@[j].path@,
            decreases n - i,
        {
            out.push((self.routes[i].method.clone(), self.routes[i].path.clone()));
            i = i + 1;
        }
        out
    }
}

/// The standard reason phrase for the status codes this library uses.
pub open spec fn spec_status_text(status: u16) -> Seq<char> {
    if status == 200 {
        "OK"@
    } else if status == 403 {
        "Forbidden"@
    } else if status == 404 {
        "Not Found"@
    } else {
        "Unknown"@
    }
}

/// The standard reason phrase for a status code; `Unknown` for any code this
/// library does not use.
pub fn status_text(status: u16) -> (r: &'static str)
    ensures
        r@ == spec_status_text(status),
{
    if status == 200 {
        "OK"
    } else if status == 403 {
        "Forbidden"
    } else if status == 404 {
        "Not Found"
    } else {
        "Unknown"
    }
}

/// The parameter bindings of matching `aa` against the pattern pieces `pp`
/// from index `i` on, on top of the bindings in `acc`: a `:name` piece binds
/// the corresponding path piece, any other piece must be equal to it.
pub open spec fn match_parts_sp(
    pp: Seq<Seq<char>>,
    aa: Seq<Seq<char>>,
    i: int,
    acc: Map<Seq<char>, Seq<char>>,
) -> Option<Map<Seq<char>, Seq<char>>>
    decreases pp.len() - i,
{
    if i < 0 || i >= pp.len() {
        Some(acc)
    } else {
        let p = pp[i];
        if p.len() > 0 && p[0] == ':' {
            match_parts_sp(pp, aa, i + 1, acc.insert(p.skip(1), aa[i]))
        } else if p == aa[i] {
            match_parts_sp(pp, aa, i + 1, acc)
        } else {
            None
        }
    }
}

/// The parameters extracted from a path by a pattern: both are stripped of
/// leading and trailing slashes and split on `/`; the piece counts must
/// agree, `:name` pieces bind, and the rest must match verbatim.
pub open spec fn spec_match_path(pattern: Seq<char>, path: Seq<char>) -> Option<
    Map<Seq<char>, Seq<char>>,
> {
    let pp = spec_split(spec_trim_char(pattern, '/'), '/');
    let aa = spec_split(spec_trim_char(path, '/'), '/');
    if pp.len() != aa.len() {
        None
    } else {
        match_parts_sp(pp, aa, 0, Map::empty())
    }
}

/// Matches a request path against a route pattern, extracting the `:name`
/// parameters.
pub fn match_path(pattern: &str, path: &str) -> (r: Option<StrMap>)
    ensures
        match r {
            Some(params) => spec_match_path(pattern@, path@) == Some(params@),
            None => spec_match_path(pattern@, path@) is None,
        },
{
    let ghost ppv = spec_split(spec_trim_char(pattern@, '/'), '/');
    let ghost aav = spec_split(spec_trim_char(path@, '/'), '/');
    let pattern_parts = split_str(trim_char(pattern, '/'), '/');
    let path_parts = split_str(trim_char(path, '/'), '/');
    proof {
        assert(pattern_parts.deep_view() == ppv);
        assert(path_parts.deep_view() == aav);
    }
    if pattern_parts.len() != path_parts.len() {
        return None;
    }
    let n = pattern_parts.len();
    let mut params = StrMap::new();
    let mut i: usize = 0;
    while i < n
        invariant
            0 <= i <= n,
            n == ppv.len() == aav.len(),
            n == pattern_parts@.len() == path_parts@.len(),
            pattern_parts.deep_view() == ppv,
            path_parts.deep_view() == aav,
            ppv == spec_split(spec_trim_char(pattern@, '/'), '/'),
            aav == spec_split(spec_trim_char(path@, '/'), '/'),
            match_parts_sp(ppv, aav, 0, Map::empty()) == match_parts_sp(ppv, aav, i as int, params@),
        decreases n - i,
    {
        proof {
            assert(pattern_parts.deep_view()[i as int] == pattern_parts@[i as int]@);
            assert(path_parts.deep_view()[i as int] == path_parts@[i as int]@);
        }
        let p = &pattern_parts[i];
        let pn = p.as_str().unicode_len();
        if pn > 0 && p.as_str().get_char(0) == ':' {
            let name = skip_chars(p.as_str(), 1).to_owned();
            params.insert(name, path_parts[i].clone());
        } else if str_eq(p.as_str(), path_parts[i].as_str()) {
        } else {
            return None;
        }
        i = i + 1;
    }
    Some(params)
}

} // verus!
