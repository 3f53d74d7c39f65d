use vstd::prelude::*;
use vstd::string::*;

use crate::entries::{entries_list, entries_map, lemma_same_list_same_map, lemma_sorted_entries_equal, put, sorted_keys};
use crate::text::{cut_once, find_char, quote, quoted_of, quoted_on_plain, upper_on_ascii, split_all, split_once, to_upper, trim, trimmed, upper_of};

verus! {

/// A decoded request. Query and header entries are kept sorted by key, one
/// entry per key (`wf`), so that their order follows from the mappings alone.
#[derive(Debug, Clone)]
pub struct Request {
    pub method: String,
    pub path: String,
    pub query: Vec<(String, Option<String>)>,
    pub fragment: Option<String>,
    pub headers: Vec<(String, String)>,
    pub body: Option<String>,
}

/// What a request means: its fields as character sequences, its query and its
/// headers as mappings.
pub struct RequestView {
    pub method: Seq<char>,
    pub path: Seq<char>,
    pub query: Map<Seq<char>, Option<Seq<char>>>,
    pub fragment: Option<Seq<char>>,
    pub headers: Map<Seq<char>, Seq<char>>,
    pub body: Option<Seq<char>>,
}

impl View for Request {
    type V = RequestView;

    open spec fn view(&self) -> RequestView {
        RequestView {
            method: self.method@,
            path: self.path@,
            query: entries_map(self.query@),
            fragment: self.fragment.deep_view(),
            headers: entries_map(self.headers@),
            body: self.body.deep_view(),
        }
    }
}

impl Request {
    /// Query entries and headers are sorted by key, one entry per key.
    pub open spec fn wf(&self) -> bool {
        sorted_keys(entries_list(self.query@)) && sorted_keys(entries_list(self.headers@))
    }
}

/// The request that nothing has been said of: `GET /`, with nothing else.
pub open spec fn default_view() -> RequestView {
    RequestView {
        method: "GET"@,
        path: "/"@,
        query: Map::empty(),
        fragment: None,
        headers: Map::empty(),
        body: None,
    }
}

/// The query mapping that a list of `key[=value]` pairs builds up, starting
/// from `m`: later pairs overwrite earlier ones, and an empty value is no value.
pub open spec fn fold_pairs(
    m: Map<Seq<char>, Option<Seq<char>>>,
    pairs: Seq<Seq<char>>,
) -> Map<Seq<char>, Option<Seq<char>>>
    decreases pairs.len(),
{
    if pairs.len() == 0 {
        m
    } else {
        let (k, v) = split_once(pairs[0], '=');
        fold_pairs(m.insert(k, v), pairs.drop_first())
    }
}

/// `s` with one leading `/` taken off, where it has one.
pub open spec fn strip_slash(s: Seq<char>) -> Seq<char> {
    if s.len() > 0 && s[0] == '/' {
        s.drop_first()
    } else {
        s
    }
}

/// The request that the text `s` describes:
/// `['/'] [path] ['?' pair ('&' pair)*] ['#' fragment]`, after trimming.
pub open spec fn parse_view(s: Seq<char>) -> RequestView {
    let (left, fragment) = split_once(strip_slash(trimmed(s)), '#');
    let (path, query) = split_once(left, '?');
    RequestView {
        method: "GET"@,
        path: "/"@ + path,
        query: match query {
            Some(q) => fold_pairs(Map::empty(), split_all(q, '&')),
            None => Map::empty(),
        },
        fragment: fragment,
        headers: Map::empty(),
        body: None,
    }
}

/// One query entry as text: `key=value`, or the bare key.
pub open spec fn query_item(e: (Seq<char>, Option<Seq<char>>)) -> Seq<char> {
    match e.1 {
        Some(v) => e.0 + "="@ + v,
        None => e.0,
    }
}

/// The query entries as text, joined by `&`.
pub open spec fn query_text(s: Seq<(Seq<char>, Option<Seq<char>>)>) -> Seq<char>
    decreases s.len(),
{
    if s.len() == 0 {
        Seq::empty()
    } else if s.len() == 1 {
        query_item(s[0])
    } else {
        query_text(s.drop_last()) + "&"@ + query_item(s.last())
    }
}

/// One header as text: `"key" = "value"`.
pub open spec fn header_item(e: (Seq<char>, Seq<char>)) -> Seq<char> {
    quoted_of(e.0) + " = "@ + quoted_of(e.1)
}

/// The headers as text, joined by `, `.
pub open spec fn header_text(s: Seq<(Seq<char>, Seq<char>)>) -> Seq<char>
    decreases s.len(),
{
    if s.len() == 0 {
        Seq::empty()
    } else if s.len() == 1 {
        header_item(s[0])
    } else {
        header_text(s.drop_last()) + ", "@ + header_item(s.last())
    }
}

/// The one-line rendering of a request:
/// `[METHOD PATH[?query][#fragment][ | with headers {...}][ | with body "..."]]`.
/// Query entries and headers are written in the order of their lists, which
/// a well-formed request keeps sorted by key.
pub open spec fn render_text(r: Request) -> Seq<char> {
    let q = entries_list(r.query@);
    let h = entries_list(r.headers@);
    "["@ + upper_of(r.method@) + " "@ + r.path@
        + (if q.len() == 0 { Seq::empty() } else { "?"@ + query_text(q) })
        + (match r.fragment { Some(f) => "#"@ + f@, None => Seq::empty() })
        + (if h.len() == 0 { Seq::empty() } else { " | with headers {"@ + header_text(h) + "}"@ })
        + (match r.body { Some(b) => " | with body "@ + quoted_of(b@), None => Seq::empty() })
        + "]"@
}

/// Well-formed requests that mean the same render the same: the rendering
/// depends on the request's view alone.
pub proof fn lemma_render_canonical(a: Request, b: Request)
    requires
        a.wf(),
        b.wf(),
        a@ == b@,
    ensures
        render_text(a) == render_text(b),
{
    lemma_sorted_entries_equal(a.query@, b.query@);
    lemma_sorted_entries_equal(a.headers@, b.headers@);
}

/// The entries of a query string, in the order in which they first occur.
fn parse_query(q: &str) -> (r: Vec<(String, Option<String>)>)
    ensures
        entries_map(r@) == fold_pairs(Map::empty(), split_all(q@, '&')),
        sorted_keys(entries_list(r@)),
{
    let mut out: Vec<(String, Option<String>)> = Vec::new();
    let mut rest: String = String::from_str(q);
    assert(entries_map(out@) == Map::<Seq<char>, Option<Seq<char>>>::empty());
    assert(entries_list(out@) =~= Seq::<(Seq<char>, Option<Seq<char>>)>::empty());
    loop
        invariant
            fold_pairs(entries_map(out@), split_all(rest@, '&')) == fold_pairs(
                Map::empty(),
                split_all(q@, '&'),
            ),
            sorted_keys(entries_list(out@)),
        decreases rest@.len(),
    {
        let ghost pieces = split_all(rest@, '&');
        let n = rest.as_str().unicode_len();
        match find_char(rest.as_str(), '&') {
            None => {
                let (k, v) = cut_once(rest.as_str(), '=');
                put(&mut out, k, v);
                assert(pieces == seq![rest@]);
                assert(pieces.drop_first() =~= Seq::<Seq<char>>::empty());
                assert(fold_pairs(entries_map(out@), pieces.drop_first()) == entries_map(out@));
                return out;
            },
            Some(i) => {
                let (k, v) = cut_once(rest.as_str().substring_char(0, i), '=');
                put(&mut out, k, v);
                let next = String::from_str(rest.as_str().substring_char(i + 1, n));
                assert(pieces.drop_first() =~= split_all(next@, '&'));
                rest = next;
            },
        }
    }
}

/// Appends the query entries as text.
fn append_query(out: &mut String, query: &Vec<(String, Option<String>)>)
    ensures
        final(out)@ == old(out)@ + query_text(entries_list(query@)),
{
    let ghost start = out@;
    let ghost l = entries_list(query@);
    let mut i: usize = 0;
    while i < query.len()
        invariant
            i <= query@.len(),
            l == entries_list(query@),
            out@ == start + query_text(l.take(i as int)),
        decreases query@.len() - i,
    {
        if i > 0 {
            out.append("&");
        }
        out.append(query[i].0.as_str());
        match &query[i].1 {
            Some(v) => {
                out.append("=");
                out.append(v.as_str());
            },
            None => {},
        }
        assert(l.take(i + 1).drop_last() =~= l.take(i as int));
        assert(l.take(i + 1).last() == l[i as int]);
        assert(l[i as int] == (query@[i as int].0@, query@[i as int].1.deep_view()));
        assert(out@ =~= start + query_text(l.take(i + 1)));
        i = i + 1;
    }
    assert(l.take(i as int) =~= l);
}

/// Appends the headers as text.
fn append_headers(out: &mut String, headers: &Vec<(String, String)>)
    ensures
        final(out)@ == old(out)@ + header_text(entries_list(headers@)),
        forall|i: int|
            0 <= i < headers@.len() ==> quoted_on_plain(
                (#[trigger] headers@[i]).0@,
                quoted_of(headers@[i].0@),
            ) && quoted_on_plain(headers@[i].1@, quoted_of(headers@[i].1@)),
{
    let ghost start = out@;
    let ghost l = entries_list(headers@);
    let mut i: usize = 0;
    while i < headers.len()
        invariant
            i <= headers@.len(),
            l == entries_list(headers@),
            out@ == start + header_text(l.take(i as int)),
            forall|j: int|
                0 <= j < i ==> quoted_on_plain(
                    (#[trigger] headers@[j]).0@,
                    quoted_of(headers@[j].0@),
                ) && quoted_on_plain(headers@[j].1@, quoted_of(headers@[j].1@)),
        decreases headers@.len() - i,
    {
        if i > 0 {
            out.append(", ");
        }
        let k = quote(headers[i].0.as_str());
        out.append(k.as_str());
        out.append(" = ");
        let v = quote(headers[i].1.as_str());
        out.append(v.as_str());
        assert(l.take(i + 1).drop_last() =~= l.take(i as int));
        assert(l.take(i + 1).last() == l[i as int]);
        assert(l[i as int] == (headers@[i as int].0@, headers@[i as int].1@));
        assert(out@ =~= start + header_text(l.take(i + 1)));
        i = i + 1;
    }
    assert(l.take(i as int) =~= l);
}

impl Request {
    /// Reads a request from URI-like text. Never fails: what is missing takes
    /// its default.
    pub fn parse(text: &str) -> (r: Request)
        ensures
            r@ == parse_view(text@),
            r.headers@.len() == 0,
            r.wf(),
    {
        let t = trim(text);
        let n = t.unicode_len();
        let u = if n > 0 && t.get_char(0) == '/' {
            t.substring_char(1, n)
        } else {
            t.substring_char(0, n)
        };
        assert(u@ =~= strip_slash(trimmed(text@)));
        let (left, fragment) = cut_once(u, '#');
        let (path, query) = cut_once(left.as_str(), '?');
        let mut full = String::from_str("/");
        full.append(path.as_str());
        let entries = match query {
            Some(q) => parse_query(q.as_str()),
            None => Vec::new(),
        };
        let r = Request {
            method: String::from_str("GET"),
            path: full,
            query: entries,
            fragment: fragment,
            headers: Vec::new(),
            body: None,
        };
        assert(r@.query =~= parse_view(text@).query);
        r
    }

    /// The one-line rendering of the request.
    pub fn render(&self) -> (r: String)
        ensures
            r@ == render_text(*self),
            upper_on_ascii(self.method@, upper_of(self.method@)),
            forall|i: int|
                0 <= i < self.headers@.len() ==> quoted_on_plain(
                    (#[trigger] self.headers@[i]).0@,
                    quoted_of(self.headers@[i].0@),
                ) && quoted_on_plain(self.headers@[i].1@, quoted_of(self.headers@[i].1@)),
            self.body matches Some(b) ==> quoted_on_plain(b@, quoted_of(b@)),
    {
        let mut out = String::from_str("[");
        let m = to_upper(self.method.as_str());
        out.append(m.as_str());
        out.append(" ");
        out.append(self.path.as_str());
        if self.query.len() > 0 {
            out.append("?");
            append_query(&mut out, &self.query);
        }
        match &self.fragment {
            Some(f) => {
                out.append("#");
                out.append(f.as_str());
            },
            None => {},
        }
        if self.headers.len() > 0 {
            out.append(" | with headers {");
            append_headers(&mut out, &self.headers);
            out.append("}");
        }
        match &self.body {
            Some(b) => {
                out.append(" | with body ");
                let q = quote(b.as_str());
                out.append(q.as_str());
            },
            None => {},
        }
        out.append("]");
        assert(out@ =~= render_text(*self));
        out
    }
}

/// `a` and `b` hold the same texts and the same entry lists.
pub open spec fn same_request(a: &Request, b: &Request) -> bool {
    &&& a.method@ == b.method@
    &&& a.path@ == b.path@
    &&& entries_list(a.query@) == entries_list(b.query@)
    &&& a.fragment.deep_view() == b.fragment.deep_view()
    &&& entries_list(a.headers@) == entries_list(b.headers@)
    &&& a.body.deep_view() == b.body.deep_view()
}

/// On well-formed requests, `==` is equality of what they mean.
pub proof fn lemma_eq_is_same_view(a: Request, b: Request)
    requires
        a.wf(),
        b.wf(),
    ensures
        same_request(&a, &b) <==> a@ == b@,
{
    if same_request(&a, &b) {
        lemma_same_list_same_map(a.query@, b.query@);
        lemma_same_list_same_map(a.headers@, b.headers@);
    }
    if a@ == b@ {
        lemma_sorted_entries_equal(a.query@, b.query@);
        lemma_sorted_entries_equal(a.headers@, b.headers@);
    }
}

/// Whether two optional texts are equal.
fn same_opt(a: &Option<String>, b: &Option<String>) -> (r: bool)
    ensures
        r == (a.deep_view() == b.deep_view()),
{
    match (a, b) {
        (Some(x), Some(y)) => x.eq(y),
        (None, None) => true,
        _ => false,
    }
}

/// Whether two query lists are equal, entry by entry.
fn same_query(a: &Vec<(String, Option<String>)>, b: &Vec<(String, Option<String>)>) -> (r: bool)
    ensures
        r == (entries_list(a@) == entries_list(b@)),
{
    let ghost la = entries_list(a@);
    let ghost lb = entries_list(b@);
    if a.len() != b.len() {
        assert(la.len() != lb.len());
        return false;
    }
    let mut i: usize = 0;
    while i < a.len()
        invariant
            a@.len() == b@.len(),
            la == entries_list(a@),
            lb == entries_list(b@),
            i <= a@.len(),
            forall|j: int| 0 <= j < i ==> la[j] == lb[j],
        decreases a@.len() - i,
    {
        assert(la[i as int] == (a@[i as int].0@, a@[i as int].1.deep_view()));
        assert(lb[i as int] == (b@[i as int].0@, b@[i as int].1.deep_view()));
        if !a[i].0.eq(&b[i].0) || !same_opt(&a[i].1, &b[i].1) {
            assert(la[i as int] != lb[i as int]);
            return false;
        }
        i = i + 1;
    }
    assert(la =~= lb);
    true
}

/// Whether two header lists are equal, entry by entry.
fn same_headers(a: &Vec<(String, String)>, b: &Vec<(String, String)>) -> (r: bool)
    ensures
        r == (entries_list(a@) == entries_list(b@)),
{
    let ghost la = entries_list(a@);
    let ghost lb = entries_list(b@);
    if a.len() != b.len() {
        assert(la.len() != lb.len());
        return false;
    }
    let mut i: usize = 0;
    while i < a.len()
        invariant
            a@.len() == b@.len(),
            la == entries_list(a@),
            lb == entries_list(b@),
            i <= a@.len(),
            forall|j: int| 0 <= j < i ==> la[j] == lb[j],
        decreases a@.len() - i,
    {
        assert(la[i as int] == (a@[i as int].0@, a@[i as int].1@));
        assert(lb[i as int] == (b@[i as int].0@, b@[i as int].1@));
        if !a[i].0.eq(&b[i].0) || !a[i].1.eq(&b[i].1) {
            assert(la[i as int] != lb[i as int]);
            return false;
        }
        i = i + 1;
    }
    assert(la =~= lb);
    true
}

impl PartialEq for Request {
    fn eq(&self, other: &Request) -> (r: bool) {
        self.method.eq(&other.method) && self.path.eq(&other.path) && same_query(
            &self.query,
            &other.query,
        ) && same_opt(&self.fragment, &other.fragment) && same_headers(
            &self.headers,
            &other.headers,
        ) && same_opt(&self.body, &other.body)
    }
}

impl vstd::std_specs::cmp::PartialEqSpecImpl for Request {
    open spec fn obeys_eq_spec() -> bool {
        true
    }

    open spec fn eq_spec(&self, other: &Request) -> bool {
        same_request(self, other)
    }
}

impl<'a> From<&'a str> for Request {
    /// Reads a request from URI-like text, as `Request::parse` does.
    fn from(text: &'a str) -> (r: Request)
        ensures
            r@ == parse_view(text@),
            r.headers@.len() == 0,
            r.wf(),
    {
        Request::parse(text)
    }
}

impl<'a> vstd::std_specs::convert::FromSpecImpl<&'a str> for Request {
    /// A request holds `String`s, which no spec function can build, so what
    /// `from` returns is stated by its own `ensures` instead.
    open spec fn obeys_from_spec() -> bool {
        false
    }

    open spec fn from_spec(text: &'a str) -> Request {
        arbitrary()
    }
}

impl Default for Request {
    /// `GET /`, with no query, fragment, headers or body.
    fn default() -> (r: Request)
        ensures
            r@ == default_view(),
            r.query@.len() == 0,
            r.headers@.len() == 0,
            r.wf(),
    {
        let r = Request {
            method: String::from_str("GET"),
            path: String::from_str("/"),
            query: Vec::new(),
            fragment: None,
            headers: Vec::new(),
            body: None,
        };
        assert(r@.query =~= Map::empty());
        assert(r@.headers =~= Map::empty());
        r
    }
}

impl Request {
    /// Sets the path, verbatim.
    pub fn set_path(&mut self, path: &str)
        ensures
            final(self).path@ == path@,
            *final(self) == (Request { path: final(self).path, ..*old(self) }),
    {
        self.path = String::from_str(path);
    }

    /// Sets the method, verbatim.
    pub fn set_method(&mut self, method: &str)
        ensures
            final(self).method@ == method@,
            *final(self) == (Request { method: final(self).method, ..*old(self) }),
    {
        self.method = String::from_str(method);
    }

    /// Sets the fragment.
    pub fn set_fragment(&mut self, fragment: &str)
        ensures
            final(self)@.fragment == Some(fragment@),
            *final(self) == (Request { fragment: final(self).fragment, ..*old(self) }),
    {
        self.fragment = Some(String::from_str(fragment));
    }

    /// Sets the body.
    pub fn set_body(&mut self, body: &str)
        ensures
            final(self)@.body == Some(body@),
            *final(self) == (Request { body: final(self).body, ..*old(self) }),
    {
        self.body = Some(String::from_str(body));
    }

    /// Maps the query key `key` to `value`, which may be no value.
    pub fn set_query(&mut self, key: &str, value: Option<&str>)
        ensures
            final(self)@.query == old(self)@.query.insert(key@, value.deep_view()),
            old(self).wf() ==> final(self).wf(),
            *final(self) == (Request { query: final(self).query, ..*old(self) }),
    {
        let v = match value {
            Some(v) => Some(String::from_str(v)),
            None => None,
        };
        put(&mut self.query, String::from_str(key), v);
    }

    /// Maps the header `key` to `value`.
    pub fn set_header(&mut self, key: &str, value: &str)
        ensures
            final(self)@.headers == old(self)@.headers.insert(key@, value@),
            old(self).wf() ==> final(self).wf(),
            *final(self) == (Request { headers: final(self).headers, ..*old(self) }),
    {
        put(&mut self.headers, String::from_str(key), String::from_str(value));
    }

    /// The request with its path set, verbatim.
    pub fn with_path(self, path: &str) -> (r: Request)
        ensures
            r.path@ == path@,
            r == (Request { path: r.path, ..self }),
    {
        let mut r = self;
        r.set_path(path);
        r
    }

    /// The request with its method set, verbatim.
    pub fn with_method(self, method: &str) -> (r: Request)
        ensures
            r.method@ == method@,
            r == (Request { method: r.method, ..self }),
    {
        let mut r = self;
        r.set_method(method);
        r
    }

    /// The request with its fragment set.
    pub fn with_fragment(self, fragment: &str) -> (r: Request)
        ensures
            r@.fragment == Some(fragment@),
            r == (Request { fragment: r.fragment, ..self }),
    {
        let mut r = self;
        r.set_fragment(fragment);
        r
    }

    /// The request with its body set.
    pub fn with_body(self, body: &str) -> (r: Request)
        ensures
            r@.body == Some(body@),
            r == (Request { body: r.body, ..self }),
    {
        let mut r = self;
        r.set_body(body);
        r
    }

    /// The request with the query key `key` mapped to `value`.
    pub fn with_query(self, key: &str, value: Option<&str>) -> (r: Request)
        ensures
            r@.query == self@.query.insert(key@, value.deep_view()),
            self.wf() ==> r.wf(),
            r == (Request { query: r.query, ..self }),
    {
        let mut r = self;
        r.set_query(key, value);
        r
    }

    /// The request with the header `key` mapped to `value`.
    pub fn with_header(self, key: &str, value: &str) -> (r: Request)
        ensures
            r@.headers == self@.headers.insert(key@, value@),
            self.wf() ==> r.wf(),
            r == (Request { headers: r.headers, ..self }),
    {
        let mut r = self;
        r.set_header(key, value);
        r
    }
}

} // verus!
