//! A request as the rules see it.
use vstd::prelude::*;
use vstd::utf8::*;

use crate::filter::header_action::clone_option;
use crate::http::header::{Header, HeaderRecord, has_named, headers_view, join_commas, lemma_has_named_push, name_is, values_named};
use crate::http::query::{PathAndQueryWithSkipped, entry_value, percent_encode, percent_encoded, spec_from_config};
use crate::marker::{lemma_map_insert_at, lemma_map_insert_new, map_insert, pairs_view};
use crate::router_config::RouterConfig;
use crate::text::{opt_view, push_char, sort_string_vec, sort_strings, spec_to_lowercase, str_eq, to_lowercase};

verus! {

/// A point in time: seconds and nanoseconds since 1970-01-01 00:00:00 UTC.
#[derive(Debug, Clone, Copy, PartialEq, Eq, Structural)]
pub struct Timestamp {
    pub secs: i64,
    pub nanos: u32,
}

/// Reads the system clock with `SystemTime::now` and gives its `duration_since` the Unix
/// epoch, in whole seconds and nanoseconds; `None` where the clock is before the epoch. The
/// result is the time of the call, of which nothing is stated.
#[verifier::external_body]
fn utc_now() -> (res: Option<Timestamp>) {
    match std::time::SystemTime::now().duration_since(std::time::UNIX_EPOCH) {
        Ok(d) => Some(Timestamp { secs: d.as_secs() as i64, nanos: d.subsec_nanos() }),
        Err(_) => None,
    }
}

/// The point in time that chrono reads in `s` as an RFC 3339 date and time, if it reads one.
pub uninterp spec fn spec_parse_datetime(s: Seq<char>) -> Option<Timestamp>;

/// Parses `s` as `DateTime<Utc>` with `str::parse`; the result is a function of `s`.
#[verifier::external_body]
fn parse_datetime(s: &str) -> (res: Option<Timestamp>)
    ensures
        res == spec_parse_datetime(s@),
{
    match s.parse::<chrono::DateTime<chrono::Utc>>() {
        Ok(dt) => Some(Timestamp { secs: dt.timestamp(), nanos: dt.timestamp_subsec_nanos() }),
        Err(_) => None,
    }
}

/// The path and query, authority and scheme of the URI `s`, where the http crate builds a
/// request with the method `method` to it.
pub uninterp spec fn spec_parse_uri_with_method(s: Seq<char>, method: Seq<char>) -> Option<
    (Seq<char>, Option<Seq<char>>, Option<Seq<char>>),
>;

/// Builds a request with the method `method` to `s` with `http::Request::builder()` and gives
/// its URI's path and query (empty without one), authority and scheme; `None` where the
/// builder fails.
#[verifier::external_body]
fn parse_uri_with_method(s: &str, method: &str) -> (res: Option<(String, Option<String>, Option<String>)>)
    ensures
        match spec_parse_uri_with_method(s@, method@) {
            None => res is None,
            Some((pq, authority, scheme)) => res matches Some((p, a, sc)) && p@ == pq && opt_view(a) == authority
                && opt_view(sc) == scheme,
        },
{
    let request = match ::http::Request::<()>::builder().uri(s).method(method).body(()) {
        Ok(request) => request,
        Err(_) => return None,
    };
    let uri = request.uri();
    Some((
        match uri.path_and_query() {
            None => String::new(),
            Some(p) => p.as_str().to_string(),
        },
        uri.authority().map(|a| a.to_string()),
        uri.scheme_str().map(|s| s.to_string()),
    ))
}

/// An IP address.
#[derive(Debug, Clone, Copy, PartialEq, Eq)]
pub enum IpAddress {
    V4([u8; 4]),
    V6([u16; 8]),
}

/// Why a request could not be read.
#[derive(Debug, Clone, Copy, PartialEq, Eq, Structural)]
pub enum RequestError {
    /// The URI is not one that an HTTP request can have.
    InvalidUri,
}

/// What a trusted proxy may override: `value` where overriding is allowed and it differs
/// from the request's own `current`, else nothing.
pub open spec fn override_of(allow: bool, value: Option<Seq<char>>, current: Option<Seq<char>>) -> Option<Seq<char>> {
    if allow && value is Some && value != current {
        value
    } else {
        None
    }
}

fn override_value(allow: bool, value: Option<String>, current: &Option<String>) -> (res: Option<String>)
    ensures
        opt_view(res) == override_of(allow, opt_view(value), opt_view(*current)),
{
    if !allow {
        return None;
    }
    match value {
        None => None,
        Some(v) => match current {
            Some(c) => if str_eq(v.as_str(), c.as_str()) {
                None
            } else {
                Some(v)
            },
            None => Some(v),
        },
    }
}

/// What a request takes from the proxy headers it trusts: the client's address that the
/// proxies give, and the scheme and the host they advertise, each only where overriding it
/// is allowed and it is not the request's own (`default_scheme`, `default_host`).
pub fn forwarded_overrides(
    trusted_ip: IpAddress,
    trusted_scheme: Option<String>,
    trusted_host: Option<String>,
    default_scheme: Option<String>,
    default_host: Option<String>,
    allow_scheme: bool,
    allow_host: bool,
) -> (res: (IpAddress, Option<String>, Option<String>))
    ensures
        res.0 == trusted_ip,
        opt_view(res.1) == override_of(allow_scheme, opt_view(trusted_scheme), opt_view(default_scheme)),
        opt_view(res.2) == override_of(allow_host, opt_view(trusted_host), opt_view(default_host)),
{
    let scheme = override_value(allow_scheme, trusted_scheme, &default_scheme);
    let host = override_value(allow_host, trusted_host, &default_host);
    (trusted_ip, scheme, host)
}

/// A request.
#[derive(Debug)]
pub struct Request {
    pub path_and_query_skipped: PathAndQueryWithSkipped,
    pub path_and_query: Option<String>,
    pub host: Option<String>,
    pub scheme: Option<String>,
    pub method: Option<String>,
    pub headers: Vec<Header>,
    pub remote_addr: Option<IpAddress>,
    pub created_at: Option<Timestamp>,
    pub sampling_override: Option<bool>,
}

/// An optional string in lowercase where the case is ignored.
pub open spec fn opt_case(ignore_case: bool, s: Option<String>) -> Option<Seq<char>> {
    match s {
        Some(x) => Some(if ignore_case { spec_to_lowercase(x@) } else { x@ }),
        None => None,
    }
}

/// The headers with their values in lowercase where the case is ignored.
pub open spec fn headers_with_case(ignore_case: bool, hs: Seq<HeaderRecord>) -> Seq<HeaderRecord> {
    hs.map_values(|h: HeaderRecord| (h.0, if ignore_case { spec_to_lowercase(h.1) } else { h.1 }))
}

/// Where the case is not ignored, the headers are kept as they are; where it is, each keeps
/// its name and its place, and only its value goes to lowercase.
pub proof fn law_header_values_change_only_where_case_is_ignored(ignore_case: bool, hs: Seq<HeaderRecord>)
    ensures
        !ignore_case ==> headers_with_case(ignore_case, hs) == hs,
        headers_with_case(ignore_case, hs).len() == hs.len(),
        forall|i: int|
            0 <= i < hs.len() ==> (#[trigger] headers_with_case(ignore_case, hs)[i]).0 == hs[i].0 && (ignore_case
                ==> headers_with_case(ignore_case, hs)[i].1 == spec_to_lowercase(hs[i].1)),
{
    if !ignore_case {
        assert(headers_with_case(ignore_case, hs) =~= hs);
    }
}

/// Where the case is not ignored, a host is kept as it is.
pub proof fn law_host_changes_only_where_case_is_ignored(ignore_case: bool, s: Option<String>)
    ensures
        !ignore_case ==> opt_case(ignore_case, s) == opt_view(s),
        opt_case(ignore_case, s) is Some <==> s is Some,
{
}

/// The path and query of a request, its matched form and skipped parameters, and the original.
pub open spec fn pq_view(p: PathAndQueryWithSkipped) -> (Seq<char>, Option<Seq<char>>, Option<Seq<char>>, Seq<char>) {
    (p.path_and_query@, opt_view(p.path_and_query_matching), opt_view(p.skipped_query_params), p.original@)
}

fn lower_option(ignore_case: bool, s: Option<String>) -> (res: Option<String>)
    ensures
        opt_view(res) == opt_case(ignore_case, s),
{
    match s {
        Some(x) => Some(if ignore_case { to_lowercase(x.as_str()) } else { x }),
        None => None,
    }
}

/// The entries of a map of strings that the pairs are set in turn, a later value replacing an earlier one.
pub open spec fn map_of_pairs(pairs: Seq<(Seq<char>, Seq<char>)>) -> Seq<(Seq<char>, Seq<char>)>
    decreases pairs.len(),
{
    if pairs.len() == 0 {
        Seq::empty()
    } else {
        map_insert(map_of_pairs(pairs.drop_last()), pairs.last().0, pairs.last().1)
    }
}

/// The parameters of a query, by name in order, each `name=value` (a name alone for an empty
/// value), percent-encoded and joined by `&`.
pub open spec fn sorted_query_of(entries: Seq<(Seq<char>, Seq<char>)>, keys: Seq<Seq<char>>) -> Seq<char>
    decreases keys.len(),
{
    if keys.len() == 0 {
        Seq::empty()
    } else {
        let k = keys.last();
        let param = percent_encoded(encode_utf8(k), false) + match entry_value(entries, k) {
            Some(v) => if v.len() > 0 {
                seq!['='] + percent_encoded(encode_utf8(v), false)
            } else {
                Seq::<char>::empty()
            },
            None => Seq::<char>::empty(),
        };
        let prev = sorted_query_of(entries, keys.drop_last());
        if keys.len() == 1 {
            param
        } else {
            prev + seq!['&'] + param
        }
    }
}

impl Request {
    pub fn new(
        path_and_query_skipped: PathAndQueryWithSkipped,
        path_and_query: String,
        host: Option<String>,
        scheme: Option<String>,
        method: Option<String>,
        remote_addr: Option<IpAddress>,
        sampling_override: Option<bool>,
    ) -> (res: Request)
        ensures
            res.path_and_query_skipped == path_and_query_skipped,
            res.path_and_query == Some(path_and_query),
            res.host == host,
            res.scheme == scheme,
            res.method == method,
            res.headers@.len() == 0,
            res.remote_addr == remote_addr,
            res.sampling_override == sampling_override,
    {
        Request {
            path_and_query_skipped,
            path_and_query: Some(path_and_query),
            host,
            scheme,
            method,
            headers: Vec::new(),
            remote_addr,
            created_at: utc_now(),
            sampling_override,
        }
    }

    /// A request read with the settings of a router.
    pub fn from_config(
        config: &RouterConfig,
        path_and_query: String,
        host: Option<String>,
        scheme: Option<String>,
        method: Option<String>,
        remote_addr: Option<IpAddress>,
        sampling_override: Option<bool>,
    ) -> (res: Request)
        ensures
            pq_view(res.path_and_query_skipped) == spec_from_config(*config, path_and_query@),
            res.path_and_query == Some(path_and_query),
            opt_view(res.host) == opt_case(config.ignore_host_case, host),
            res.scheme == scheme,
            res.method == method,
            res.headers@.len() == 0,
            res.remote_addr == remote_addr,
            res.sampling_override == sampling_override,
    {
        Request {
            path_and_query_skipped: PathAndQueryWithSkipped::from_config(config, path_and_query.as_str()),
            path_and_query: Some(path_and_query),
            host: lower_option(config.ignore_host_case, host),
            scheme,
            method,
            remote_addr,
            headers: Vec::new(),
            created_at: utc_now(),
            sampling_override,
        }
    }

    /// A `GET` request to the URI `s`.
    pub fn from_str(s: &str) -> (res: Result<Request, RequestError>)
        ensures
            match spec_parse_uri_with_method(s@, seq!['G', 'E', 'T']) {
                None => res is Err,
                Some((pq, authority, scheme)) => res matches Ok(r) && r.path_and_query_skipped.original@ == pq
                    && opt_view(r.path_and_query_skipped.path_and_query_matching) == Some(pq)
                    && r.path_and_query_skipped.path_and_query@ == percent_encoded(encode_utf8(pq), false)
                    && opt_view(r.path_and_query) == Some(pq) && opt_view(r.host) == authority && opt_view(r.scheme)
                    == scheme && r.method is None && r.remote_addr is None && r.sampling_override is None
                    && r.headers@.len() == 0,
            },
    {
        proof {
            reveal_strlit("GET");
        }
        assert("GET"@ =~= seq!['G', 'E', 'T']);
        let (pq, authority, scheme) = match parse_uri_with_method(s, "GET") {
            Some(parts) => parts,
            None => return Err(RequestError::InvalidUri),
        };
        Ok(Request::new(PathAndQueryWithSkipped::from_static(pq.as_str()), pq, authority, scheme, None, None, None))
    }

    /// The request of an example of a rule: its method (`GET` where none is given), its URL
    /// made safe, read with the settings of a router; then its headers in order, the address
    /// it comes from, and its date where one is given and chrono reads it.
    pub fn from_example(
        config: &RouterConfig,
        method: Option<String>,
        url: &str,
        headers: Option<Vec<Header>>,
        remote_addr: Option<IpAddress>,
        datetime: Option<String>,
    ) -> (res: Result<Request, RequestError>)
        ensures
            ({
                let m = match method {
                    Some(m) => m@,
                    None => seq!['G', 'E', 'T'],
                };
                match spec_parse_uri_with_method(percent_encoded(encode_utf8(url@), false), m) {
                    None => res == Err::<Request, RequestError>(RequestError::InvalidUri),
                    Some((pq, authority, scheme)) => res matches Ok(r) && {
                        &&& pq_view(r.path_and_query_skipped) == spec_from_config(*config, pq)
                        &&& opt_view(r.path_and_query) == Some(pq)
                        &&& opt_view(r.host) == match authority {
                            Some(a) => Some(if config.ignore_host_case { spec_to_lowercase(a) } else { a }),
                            None => None,
                        }
                        &&& opt_view(r.scheme) == scheme
                        &&& r.method == method
                        &&& headers_view(r.headers@) == match headers {
                            Some(h) => headers_view(h@),
                            None => Seq::empty(),
                        }
                        &&& r.remote_addr == remote_addr
                        &&& r.sampling_override is None
                        &&& r.created_at == match datetime {
                            Some(d) => match spec_parse_datetime(d@) {
                                Some(t) => Some(t),
                                None => r.created_at,
                            },
                            None => r.created_at,
                        }
                    },
                }
            }),
    {
        proof {
            reveal_strlit("GET");
        }
        assert("GET"@ =~= seq!['G', 'E', 'T']);
        let m: String = match &method {
            Some(m) => m.clone(),
            None => "GET".to_owned(),
        };
        let url = crate::http::query::sanitize_url(url);
        let (pq, authority, scheme) = match parse_uri_with_method(url.as_str(), m.as_str()) {
            Some(parts) => parts,
            None => return Err(RequestError::InvalidUri),
        };
        let mut request = Request::from_config(config, pq, authority, scheme, method, None, None);
        match headers {
            None => {
                assert(headers_view(request.headers@) =~= Seq::<HeaderRecord>::empty());
            },
            Some(hs) => {
                let ghost hv = headers_view(hs@);
                let ghost r0 = request;
                assert(headers_view(request.headers@) =~= hv.take(0));
                let mut i: usize = 0;
                while i < hs.len()
                    invariant
                        i <= hs@.len(),
                        hv == headers_view(hs@),
                        headers_view(request.headers@) == hv.take(i as int),
                        request.path_and_query_skipped == r0.path_and_query_skipped,
                        request.path_and_query == r0.path_and_query,
                        request.host == r0.host,
                        request.scheme == r0.scheme,
                        request.method == r0.method,
                        request.remote_addr == r0.remote_addr,
                        request.created_at == r0.created_at,
                        request.sampling_override == r0.sampling_override,
                    decreases hs@.len() - i,
                {
                    request.add_header(hs[i].name.clone(), hs[i].value.clone(), false);
                    assert(hv.take(i + 1) =~= hv.take(i as int).push(hv[i as int]));
                    i = i + 1;
                }
                assert(hv.take(i as int) =~= hv);
            },
        }
        request.remote_addr = remote_addr;
        request.set_created_at(datetime);
        Ok(request)
    }

    /// The request read again with the settings of a router, from its original path and query.
    pub fn rebuild_with_config(config: &RouterConfig, request: &Request) -> (res: Self)
        ensures
            ({
                let original = match request.path_and_query {
                    Some(s) => s@,
                    None => request.path_and_query_skipped.original@,
                };
                &&& pq_view(res.path_and_query_skipped) == spec_from_config(*config, original)
                &&& opt_view(res.path_and_query) == Some(original)
            }),
            opt_view(res.host) == opt_case(config.ignore_host_case, request.host),
            res.scheme == request.scheme,
            res.method == request.method,
            headers_view(res.headers@) == headers_with_case(config.ignore_header_case, headers_view(request.headers@)),
            !config.ignore_header_case ==> headers_view(res.headers@) == headers_view(request.headers@),
            !config.ignore_host_case ==> opt_view(res.host) == opt_view(request.host),
            res.remote_addr == request.remote_addr,
            res.created_at == request.created_at,
            res.sampling_override == request.sampling_override,
    {
        proof {
            law_header_values_change_only_where_case_is_ignored(config.ignore_header_case, headers_view(request.headers@));
            law_host_changes_only_where_case_is_ignored(config.ignore_host_case, request.host);
        }
        let original_url = match &request.path_and_query {
            Some(s) => s.as_str(),
            None => request.path_and_query_skipped.original.as_str(),
        };
        let path_and_query_skipped = PathAndQueryWithSkipped::from_config(config, original_url);
        let ghost hv = headers_view(request.headers@);
        let mut headers: Vec<Header> = Vec::new();
        let mut i: usize = 0;
        while i < request.headers.len()
            invariant
                i <= request.headers@.len(),
                hv == headers_view(request.headers@),
                headers_view(headers@) == headers_with_case(config.ignore_header_case, hv.take(i as int)),
            decreases request.headers@.len() - i,
        {
            let header = &request.headers[i];
            let value = if config.ignore_header_case {
                to_lowercase(header.value.as_str())
            } else {
                header.value.clone()
            };
            let ghost before = headers_view(headers@);
            headers.push(Header { name: header.name.clone(), value });
            proof {
                assert(hv[i as int] == (header.name@, header.value@));
                assert(headers_view(headers@) =~= before.push(
                    (header.name@, if config.ignore_header_case { spec_to_lowercase(header.value@) } else { header.value@ }),
                ));
                assert(hv.take(i + 1) =~= hv.take(i as int).push(hv[i as int]));
                assert(headers_with_case(config.ignore_header_case, hv.take(i + 1)) =~= headers_with_case(
                    config.ignore_header_case,
                    hv.take(i as int),
                ).push((header.name@, if config.ignore_header_case { spec_to_lowercase(header.value@) } else { header.value@ })));
            }
            i = i + 1;
        }
        assert(hv.take(i as int) =~= hv);
        Request {
            path_and_query_skipped,
            path_and_query: Some(String::from_str(original_url)),
            host: lower_option(config.ignore_host_case, clone_option(&request.host)),
            scheme: clone_option(&request.scheme),
            method: clone_option(&request.method),
            headers,
            remote_addr: request.remote_addr,
            created_at: request.created_at,
            sampling_override: request.sampling_override,
        }
    }

    /// Adds a header, its value in lowercase where the case is ignored.
    pub fn add_header(&mut self, name: String, value: String, ignore_case: bool)
        ensures
            headers_view(final(self).headers@) == headers_view(old(self).headers@).push(
                (name@, if ignore_case { spec_to_lowercase(value@) } else { value@ }),
            ),
            final(self).path_and_query_skipped == old(self).path_and_query_skipped,
            final(self).path_and_query == old(self).path_and_query,
            final(self).host == old(self).host,
            final(self).scheme == old(self).scheme,
            final(self).method == old(self).method,
            final(self).remote_addr == old(self).remote_addr,
            final(self).created_at == old(self).created_at,
            final(self).sampling_override == old(self).sampling_override,
    {
        let ghost before = headers_view(self.headers@);
        let ghost given = value@;
        let ghost name_v = name@;
        let stored = if ignore_case { to_lowercase(value.as_str()) } else { value };
        self.headers.push(Header { name, value: stored });
        assert(headers_view(self.headers@) =~= before.push((name_v, if ignore_case { spec_to_lowercase(given) } else { given })));
    }

    /// Sets the date of the request where `created_at` is a date chrono reads.
    pub fn set_created_at(&mut self, created_at: Option<String>)
        ensures
            final(self).created_at == match created_at {
                Some(s) => match spec_parse_datetime(s@) {
                    Some(t) => Some(t),
                    None => old(self).created_at,
                },
                None => old(self).created_at,
            },
            final(self).headers@ == old(self).headers@,
            final(self).path_and_query_skipped == old(self).path_and_query_skipped,
            final(self).path_and_query == old(self).path_and_query,
            final(self).host == old(self).host,
            final(self).scheme == old(self).scheme,
            final(self).method == old(self).method,
            final(self).remote_addr == old(self).remote_addr,
            final(self).sampling_override == old(self).sampling_override,
    {
        match created_at {
            None => {},
            Some(created_at) => match parse_datetime(created_at.as_str()) {
                Some(dt) => self.created_at = Some(dt),
                None => {},
            },
        }
    }

    /// The method; `GET` where none is given.
    pub fn method(&self) -> (res: &str)
        ensures
            res@ == match self.method {
                Some(m) => m@,
                None => seq!['G', 'E', 'T'],
            },
    {
        match &self.method {
            None => {
                proof {
                    reveal_strlit("GET");
                }
                assert("GET"@ =~= seq!['G', 'E', 'T']);
                "GET"
            },
            Some(method) => method.as_str(),
        }
    }

    pub fn host(&self) -> (res: Option<&str>)
        ensures
            match res {
                Some(h) => self.host matches Some(s) && h@ == s@,
                None => self.host is None,
            },
    {
        match &self.host {
            None => None,
            Some(host_str) => Some(host_str.as_str()),
        }
    }

    pub fn scheme(&self) -> (res: Option<&str>)
        ensures
            match res {
                Some(h) => self.scheme matches Some(s) && h@ == s@,
                None => self.scheme is None,
            },
    {
        match &self.scheme {
            None => None,
            Some(scheme_str) => Some(scheme_str.as_str()),
        }
    }

    /// Whether a header of the name is there, whatever its case.
    pub fn header_exists(&self, name: &str) -> (res: bool)
        ensures
            res == has_named(headers_view(self.headers@), name@),
    {
        let ghost hv = headers_view(self.headers@);
        let lowercase_name = to_lowercase(name);
        let mut i: usize = 0;
        while i < self.headers.len()
            invariant
                i <= self.headers@.len(),
                hv == headers_view(self.headers@),
                lowercase_name@ == spec_to_lowercase(name@),
                !has_named(hv.take(i as int), name@),
            decreases self.headers@.len() - i,
        {
            proof {
                assert(hv.take(i + 1) =~= hv.take(i as int).push(hv[i as int]));
                lemma_has_named_push(hv.take(i as int), hv[i as int], name@);
            }
            if name_is(self.headers[i].name.as_str(), lowercase_name.as_str()) {
                proof {
                    assert(hv.take(i + 1)[i as int] == hv[i as int]);
                    let whole = hv;
                    assert(crate::http::header::same_name(whole[i as int].0, name@));
                }
                return true;
            }
            i = i + 1;
        }
        assert(hv.take(i as int) =~= hv);
        false
    }

    pub fn set_remote_ip(&mut self, remote_ip: IpAddress)
        ensures
            final(self).remote_addr == Some(remote_ip),
            final(self).headers@ == old(self).headers@,
            final(self).created_at == old(self).created_at,
    {
        self.remote_addr = Some(remote_ip);
    }

    /// Takes what the trusted proxies give: their client's address, and the scheme and the
    /// host they advertise where overriding them is allowed and they differ from the
    /// request's own.
    pub fn set_forwarded(
        &mut self,
        trusted_ip: IpAddress,
        trusted_scheme: Option<String>,
        trusted_host: Option<String>,
        allow_scheme: bool,
        allow_host: bool,
    )
        ensures
            final(self).remote_addr == Some(trusted_ip),
            opt_view(final(self).scheme) == match override_of(
                allow_scheme,
                opt_view(trusted_scheme),
                opt_view(old(self).scheme),
            ) {
                Some(s) => Some(s),
                None => opt_view(old(self).scheme),
            },
            opt_view(final(self).host) == match override_of(allow_host, opt_view(trusted_host), opt_view(old(self).host)) {
                Some(h) => Some(h),
                None => opt_view(old(self).host),
            },
            final(self).headers@ == old(self).headers@,
            final(self).path_and_query == old(self).path_and_query,
            final(self).method == old(self).method,
    {
        let (ip, scheme, host) = forwarded_overrides(
            trusted_ip,
            trusted_scheme,
            trusted_host,
            clone_option(&self.scheme),
            clone_option(&self.host),
            allow_scheme,
            allow_host,
        );
        self.remote_addr = Some(ip);
        if let Some(s) = scheme {
            self.scheme = Some(s);
        }
        if let Some(h) = host {
            self.host = Some(h);
        }
    }

    /// The values of the headers of the name, whatever its case, in order.
    pub fn header_values(&self, name: &str) -> (res: Vec<&str>)
        ensures
            res@.map_values(|s: &str| s@) == values_named(headers_view(self.headers@), name@),
    {
        let ghost hv = headers_view(self.headers@);
        let lowercase_name = to_lowercase(name);
        let mut values: Vec<&str> = Vec::new();
        let mut i: usize = 0;
        assert(values@.map_values(|s: &str| s@) =~= values_named(hv.take(0), name@));
        while i < self.headers.len()
            invariant
                i <= self.headers@.len(),
                hv == headers_view(self.headers@),
                lowercase_name@ == spec_to_lowercase(name@),
                values@.map_values(|s: &str| s@) == values_named(hv.take(i as int), name@),
            decreases self.headers@.len() - i,
        {
            proof {
                assert(hv.take(i + 1).drop_last() =~= hv.take(i as int));
                assert(hv.take(i + 1).last() == hv[i as int]);
            }
            let ghost before = values@;
            if name_is(self.headers[i].name.as_str(), lowercase_name.as_str()) {
                values.push(self.headers[i].value.as_str());
            }
            assert(values@.map_values(|s: &str| s@) =~= values_named(hv.take(i + 1), name@));
            i = i + 1;
        }
        assert(hv.take(i as int) =~= hv);
        values
    }

    /// The values of the headers of the name joined by commas; `None` without any.
    pub fn header_value(&self, name: &str) -> (res: Option<String>)
        ensures
            ({
                let values = values_named(headers_view(self.headers@), name@);
                if values.len() == 0 {
                    res is None
                } else {
                    res matches Some(v) && v@ == join_commas(values)
                }
            }),
    {
        let values = self.header_values(name);
        let ghost vv = values@.map_values(|s: &str| s@);
        if values.len() == 0 {
            return None;
        }
        let mut out = String::new();
        let mut i: usize = 0;
        assert(vv.take(0) =~= Seq::<Seq<char>>::empty());
        while i < values.len()
            invariant
                i <= values@.len(),
                vv == values@.map_values(|s: &str| s@),
                out@ == join_commas(vv.take(i as int)),
            decreases values@.len() - i,
        {
            proof {
                assert(vv.take(i + 1).drop_last() =~= vv.take(i as int));
                assert(vv.take(i + 1).last() == values@[i as int]@);
            }
            if i > 0 {
                push_char(&mut out, ',');
            } else {
                assert(out@ =~= Seq::<char>::empty());
            }
            out.append(values[i]);
            proof {
                if i == 0 {
                    assert(out@ =~= vv.take(1)[0]);
                }
            }
            i = i + 1;
        }
        assert(vv.take(i as int) =~= vv);
        Some(out)
    }

    /// The path and query the rules match.
    pub fn path_and_query(&self) -> (res: String)
        ensures
            res@ == match self.path_and_query_skipped.path_and_query_matching {
                Some(p) => p@,
                None => self.path_and_query_skipped.path_and_query@,
            },
    {
        match &self.path_and_query_skipped.path_and_query_matching {
            None => self.path_and_query_skipped.path_and_query.clone(),
            Some(path) => path.clone(),
        }
    }

    /// The query with its parameters sorted by name (a name once, with its last value);
    /// `None` for a query without parameters.
    pub fn build_sorted_query(query: &str) -> (res: Option<String>)
        ensures
            ({
                let entries = map_of_pairs(crate::http::query::spec_form_urlencoded_pairs(query@));
                let keys = sort_strings(entries.map_values(|e: (Seq<char>, Seq<char>)| e.0));
                let q = sorted_query_of(entries, keys);
                if q.len() == 0 {
                    res is None
                } else {
                    res matches Some(s) && s@ == q
                }
            }),
    {
        let pairs = crate::http::query::form_urlencoded_pairs(query);
        let ghost pv = pairs_view(pairs@);
        let mut entries: Vec<(String, String)> = Vec::new();
        let mut i: usize = 0;
        assert(pv.take(0) =~= Seq::<(Seq<char>, Seq<char>)>::empty());
        while i < pairs.len()
            invariant
                i <= pairs@.len(),
                pv == pairs_view(pairs@),
                pairs_view(entries@) == map_of_pairs(pv.take(i as int)),
            decreases pairs@.len() - i,
        {
            proof {
                assert(pv.take(i + 1).drop_last() =~= pv.take(i as int));
                assert(pv.take(i + 1).last() == (pairs@[i as int].0@, pairs@[i as int].1@));
            }
            crate::marker::insert_pair(&mut entries, pairs[i].0.clone(), pairs[i].1.clone());
            i = i + 1;
        }
        assert(pv.take(i as int) =~= pv);
        let ghost ev = pairs_view(entries@);
        let mut keys: Vec<String> = Vec::new();
        let mut j: usize = 0;
        while j < entries.len()
            invariant
                j <= entries@.len(),
                ev == pairs_view(entries@),
                keys@.map_values(|s: String| s@) == ev.take(j as int).map_values(|e: (Seq<char>, Seq<char>)| e.0),
            decreases entries@.len() - j,
        {
            let ghost before = keys@;
            keys.push(entries[j].0.clone());
            assert(ev[j as int].0 == entries@[j as int].0@);
            assert(ev.take(j + 1) =~= ev.take(j as int).push(ev[j as int]));
            assert(keys@ =~= before.push(entries@[j as int].0));
            assert(keys@.map_values(|s: String| s@) =~= before.map_values(|s: String| s@).push(entries@[j as int].0@));
            assert(ev.take(j + 1).map_values(|e: (Seq<char>, Seq<char>)| e.0) =~= ev.take(j as int).map_values(
                |e: (Seq<char>, Seq<char>)| e.0,
            ).push(ev[j as int].0));
            assert(keys@.map_values(|s: String| s@) =~= ev.take(j + 1).map_values(|e: (Seq<char>, Seq<char>)| e.0));
            j = j + 1;
        }
        assert(ev.take(j as int) =~= ev);
        let sorted = sort_string_vec(&keys);
        let ghost sk = sorted@.map_values(|s: String| s@);
        let mut out = String::new();
        let mut k: usize = 0;
        assert(sk.take(0) =~= Seq::<Seq<char>>::empty());
        while k < sorted.len()
            invariant
                k <= sorted@.len(),
                sk == sorted@.map_values(|s: String| s@),
                ev == pairs_view(entries@),
                out@ == sorted_query_of(ev, sk.take(k as int)),
            decreases sorted@.len() - k,
        {
            proof {
                assert(sk.take(k + 1).drop_last() =~= sk.take(k as int));
                assert(sk.take(k + 1).last() == sorted@[k as int]@);
            }
            let key = &sorted[k];
            let value = lookup(&entries, key.as_str());
            if k > 0 {
                push_char(&mut out, '&');
            } else {
                assert(out@ =~= Seq::<char>::empty());
            }
            out.append(percent_encode(key.as_str(), false).as_str());
            match &value {
                Some(v) => {
                    if !v.as_str().is_empty() {
                        push_char(&mut out, '=');
                        out.append(percent_encode(v.as_str(), false).as_str());
                    }
                },
                None => {},
            }
            proof {
                if k == 0 {
                    assert(out@ =~= sorted_query_of(ev, sk.take(k + 1)));
                } else {
                    assert(out@ =~= sorted_query_of(ev, sk.take(k + 1)));
                }
            }
            k = k + 1;
        }
        assert(sk.take(k as int) =~= sk);
        if out.as_str().is_empty() {
            return None;
        }
        Some(out)
    }
}

/// The value of the first entry of `k`.
fn lookup(entries: &Vec<(String, String)>, k: &str) -> (res: Option<String>)
    ensures
        opt_view(res) == entry_value(pairs_view(entries@), k@),
{
    let ghost ev = pairs_view(entries@);
    let mut i: usize = 0;
    assert(ev.skip(0) =~= ev);
    while i < entries.len()
        invariant
            i <= entries@.len(),
            ev == pairs_view(entries@),
            entry_value(ev, k@) == entry_value(ev.skip(i as int), k@),
        decreases entries@.len() - i,
    {
        proof {
            assert(ev.skip(i as int).drop_first() =~= ev.skip(i + 1));
            assert(ev.skip(i as int)[0] == ev[i as int]);
        }
        if str_eq(entries[i].0.as_str(), k) {
            return Some(entries[i].1.clone());
        }
        i = i + 1;
    }
    assert(ev.skip(i as int) =~= Seq::<(Seq<char>, Seq<char>)>::empty());
    None
}

} // verus!
