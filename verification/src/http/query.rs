//! The path and query of a request, as the rules match them.
use vstd::prelude::*;
use vstd::utf8::*;

use crate::filter::body_action::strings_view;
use crate::marker::pairs_view;
use crate::router_config::RouterConfig;
use crate::text::{opt_view, push_char, sort_string_vec, sort_strings, spec_to_lowercase, str_eq, to_lowercase};

verus! {

/// Whether `utf8_percent_encode` writes the byte `b` as `%XX` with the encode set of URLs
/// (controls, non-ASCII, space, `"`, `#`, `<`, `>`), and `+` too for query parameters.
pub open spec fn encodes_byte(b: u8, plus: bool) -> bool {
    b >= 0x80 || b < 0x20 || b == 0x7f || b == 0x20 || b == 0x22 || b == 0x23 || b == 0x3c || b == 0x3e || (plus
        && b == 0x2b)
}

/// The uppercase hexadecimal digit of `n` (below 16).
pub open spec fn hex_digit(n: u8) -> char {
    if n < 10 {
        (48 + n) as char
    } else {
        (55 + n) as char
    }
}

/// The bytes, each byte to encode written `%XX`, the others as the ASCII character they are.
pub open spec fn percent_encoded(bytes: Seq<u8>, plus: bool) -> Seq<char>
    decreases bytes.len(),
{
    if bytes.len() == 0 {
        Seq::<char>::empty()
    } else {
        let b = bytes.last();
        percent_encoded(bytes.drop_last(), plus) + if encodes_byte(b, plus) {
            seq!['%', hex_digit(b / 16), hex_digit(b % 16)]
        } else {
            seq![b as char]
        }
    }
}

fn hex_char(n: u8) -> (c: char)
    requires
        n < 16,
    ensures
        c == hex_digit(n),
{
    if n < 10 {
        (48 + n) as char
    } else {
        (55 + n) as char
    }
}

/// `s` percent-encoded as `percent_encoding::utf8_percent_encode` does it.
pub fn percent_encode(s: &str, plus: bool) -> (res: String)
    ensures
        res@ == percent_encoded(encode_utf8(s@), plus),
{
    let bytes = s.as_bytes_vec();
    let mut out = String::new();
    let mut i: usize = 0;
    assert(bytes@.take(0) =~= Seq::<u8>::empty());
    while i < bytes.len()
        invariant
            i <= bytes@.len(),
            bytes@ == encode_utf8(s@),
            out@ == percent_encoded(bytes@.take(i as int), plus),
        decreases bytes@.len() - i,
    {
        let b = bytes[i];
        proof {
            assert(bytes@.take(i + 1).drop_last() =~= bytes@.take(i as int));
            assert(bytes@.take(i + 1).last() == b);
        }
        let ghost before = out@;
        if b >= 0x80 || b < 0x20 || b == 0x7f || b == 0x20 || b == 0x22 || b == 0x23 || b == 0x3c || b == 0x3e || (plus
            && b == 0x2b) {
            push_char(&mut out, '%');
            push_char(&mut out, hex_char(b / 16));
            push_char(&mut out, hex_char(b % 16));
            assert(out@ =~= before + seq!['%', hex_digit(b / 16), hex_digit(b % 16)]);
        } else {
            push_char(&mut out, b as char);
            assert(out@ =~= before + seq![b as char]);
        }
        i = i + 1;
    }
    assert(bytes@.take(i as int) =~= bytes@);
    out
}

/// A path and query made safe for matching: what is not allowed in one is percent-encoded.
pub fn sanitize_url(path_and_query_str: &str) -> (res: String)
    ensures
        res@ == percent_encoded(encode_utf8(path_and_query_str@), false),
{
    percent_encode(path_and_query_str, false)
}

/// The path and the query of `s`, where the http crate reads it as a path and query.
pub uninterp spec fn spec_parse_path_and_query(s: Seq<char>) -> Option<(Seq<char>, Option<Seq<char>>)>;

/// Parses `s` with `http::uri::PathAndQuery::from_str` and gives its `path()` and `query()`.
#[verifier::external_body]
fn parse_path_and_query(s: &str) -> (res: Option<(String, Option<String>)>)
    ensures
        match spec_parse_path_and_query(s@) {
            None => res is None,
            Some((path, query)) => res matches Some((p, q)) && p@ == path && opt_view(q) == query,
        },
{
    match s.parse::<::http::uri::PathAndQuery>() {
        Ok(p) => Some((p.path().to_string(), p.query().map(|q| q.to_string()))),
        Err(_) => None,
    }
}

/// The (name, value) pairs of an `application/x-www-form-urlencoded` query, decoded.
pub uninterp spec fn spec_form_urlencoded_pairs(query: Seq<char>) -> Seq<(Seq<char>, Seq<char>)>;

/// Calls `url::form_urlencoded::parse` on the bytes of `query` and collects the owned pairs.
#[verifier::external_body]
pub(crate) fn form_urlencoded_pairs(query: &str) -> (res: Vec<(String, String)>)
    ensures
        pairs_view(res@) == spec_form_urlencoded_pairs(query@),
{
    url::form_urlencoded::parse(query.as_bytes()).into_owned().collect()
}

/// Declares `linked_hash_map::LinkedHashMap`, a map that keeps its entries in order.
#[verifier::external_type_specification]
#[verifier::external_body]
#[verifier::reject_recursive_types(K)]
#[verifier::reject_recursive_types(V)]
#[verifier::reject_recursive_types(S)]
pub struct ExLinkedHashMap<K, V, S>(linked_hash_map::LinkedHashMap<K, V, S>);

/// The entries of a linked map of strings, in their order.
pub uninterp spec fn linked_entries(m: linked_hash_map::LinkedHashMap<String, String>) -> Seq<(Seq<char>, Seq<char>)>;

/// `entries` with `(k, v)` at the end, and no other entry of `k`.
pub open spec fn moved_to_back(entries: Seq<(Seq<char>, Seq<char>)>, k: Seq<char>, v: Seq<char>) -> Seq<(Seq<char>, Seq<char>)> {
    entries.filter(|e: (Seq<char>, Seq<char>)| e.0 != k).push((k, v))
}

/// The value of the first entry of `k`, if any.
pub open spec fn entry_value(entries: Seq<(Seq<char>, Seq<char>)>, k: Seq<char>) -> Option<Seq<char>>
    decreases entries.len(),
{
    if entries.len() == 0 {
        None
    } else if entries[0].0 == k {
        Some(entries[0].1)
    } else {
        entry_value(entries.drop_first(), k)
    }
}

/// Calls `LinkedHashMap::new`: a map with no entry.
#[verifier::external_body]
fn linked_new() -> (res: linked_hash_map::LinkedHashMap<String, String>)
    ensures
        linked_entries(res) == Seq::<(Seq<char>, Seq<char>)>::empty(),
{
    linked_hash_map::LinkedHashMap::new()
}

/// Calls `LinkedHashMap::insert`: the source sets the value of `k` and moves its entry to
/// the end (a new key is added at the end).
#[verifier::external_body]
fn linked_insert(m: &mut linked_hash_map::LinkedHashMap<String, String>, k: String, v: String)
    ensures
        linked_entries(*final(m)) == moved_to_back(linked_entries(*old(m)), k@, v@),
{
    m.insert(k, v);
}

/// Calls `LinkedHashMap::keys`, which gives the keys in the order of the entries.
#[verifier::external_body]
fn linked_keys(m: &linked_hash_map::LinkedHashMap<String, String>) -> (res: Vec<String>)
    ensures
        strings_view(res@) == linked_entries(*m).map_values(|e: (Seq<char>, Seq<char>)| e.0),
{
    m.keys().cloned().collect()
}

/// Calls `LinkedHashMap::get`: the value of the entry of `k`, if any.
#[verifier::external_body]
fn linked_get(m: &linked_hash_map::LinkedHashMap<String, String>, k: &str) -> (res: Option<String>)
    ensures
        opt_view(res) == entry_value(linked_entries(*m), k@),
{
    m.get(k).cloned()
}

/// The entries of a linked map that the pairs are inserted into in turn.
pub open spec fn linked_of(pairs: Seq<(Seq<char>, Seq<char>)>) -> Seq<(Seq<char>, Seq<char>)>
    decreases pairs.len(),
{
    if pairs.len() == 0 {
        Seq::empty()
    } else {
        moved_to_back(linked_of(pairs.drop_last()), pairs.last().0, pairs.last().1)
    }
}

/// `key=value`, both percent-encoded for a query, or `key` alone for an empty or no value.
pub open spec fn query_param(key: Seq<char>, value: Option<Seq<char>>) -> Seq<char> {
    let k = percent_encoded(encode_utf8(key), true);
    match value {
        Some(v) => if v.len() > 0 {
            k + seq!['='] + percent_encoded(encode_utf8(v), true)
        } else {
            k
        },
        None => k,
    }
}

/// `acc` and `param` joined by `&`; `param` alone after nothing.
pub open spec fn join_param(acc: Seq<char>, param: Seq<char>) -> Seq<char> {
    if acc.len() > 0 {
        acc + seq!['&'] + param
    } else {
        param
    }
}

/// The query parameters kept and the ones skipped (the marketing ones), for the keys in turn.
pub open spec fn split_params(
    keys: Seq<Seq<char>>,
    entries: Seq<(Seq<char>, Seq<char>)>,
    marketing: Seq<Seq<char>>,
) -> (Seq<char>, Seq<char>)
    decreases keys.len(),
{
    if keys.len() == 0 {
        (Seq::empty(), Seq::empty())
    } else {
        let (kept, skipped) = split_params(keys.drop_last(), entries, marketing);
        let key = keys.last();
        let param = query_param(key, entry_value(entries, key));
        if marketing.contains(key) {
            (kept, join_param(skipped, param))
        } else {
            (join_param(kept, param), skipped)
        }
    }
}

/// The query kept and the query skipped, for a query of a request.
pub open spec fn query_split(config: RouterConfig, query: Seq<char>) -> (Seq<char>, Seq<char>) {
    if config.ignore_all_query_parameters {
        (Seq::empty(), query)
    } else {
        let entries = linked_of(spec_form_urlencoded_pairs(query));
        let keys = entries.map_values(|e: (Seq<char>, Seq<char>)| e.0);
        let ordered = if config.ignore_query_param_order { sort_strings(keys) } else { keys };
        split_params(ordered, entries, strings_view(config.marketing_query_params@))
    }
}

/// What `from_config` gives: the path and query, what the rules match, the skipped query
/// parameters and the original.
pub open spec fn spec_from_config(config: RouterConfig, s: Seq<char>) -> (Seq<char>, Option<Seq<char>>, Option<Seq<char>>, Seq<char>) {
    let url = percent_encoded(encode_utf8(s), false);
    let unchanged = (url, Some(case_of(config.ignore_path_and_query_case, url)), None::<Seq<char>>, s);
    if !config.ignore_marketing_query_params && !config.ignore_all_query_parameters {
        unchanged
    } else {
        match spec_parse_path_and_query(url) {
            None => unchanged,
            Some((path, query)) => {
                let (kept, skipped) = match query {
                    Some(q) => query_split(config, q),
                    None => (Seq::empty(), Seq::empty()),
                };
                let new_pq = if kept.len() > 0 {
                    path + seq!['?'] + kept
                } else {
                    path
                };
                (
                    new_pq,
                    Some(case_of(config.ignore_path_and_query_case, new_pq)),
                    if config.pass_marketing_query_params_to_target && skipped.len() > 0 {
                        Some(skipped)
                    } else {
                        None
                    },
                    s,
                )
            },
        }
    }
}

/// Query parameters are kept aside for the target only where the router passes them on
/// and ignores some of them; what is kept aside is never empty; the original is the text
/// read, whatever the settings.
pub proof fn law_query_params_are_kept_aside_only_when_passed_on(config: RouterConfig, s: Seq<char>)
    ensures
        !config.pass_marketing_query_params_to_target ==> spec_from_config(config, s).2 is None,
        !config.ignore_marketing_query_params && !config.ignore_all_query_parameters ==> spec_from_config(config, s).2
            is None,
        spec_from_config(config, s).2 matches Some(q) ==> q.len() > 0,
        spec_from_config(config, s).3 == s,
{
}

/// Whether `v` holds `s`.
fn strings_contain(v: &Vec<String>, s: &str) -> (res: bool)
    ensures
        res == strings_view(v@).contains(s@),
{
    let mut i: usize = 0;
    while i < v.len()
        invariant
            i <= v@.len(),
            forall|j: int| 0 <= j < i ==> v@[j]@ != s@,
        decreases v@.len() - i,
    {
        if str_eq(v[i].as_str(), s) {
            assert(strings_view(v@)[i as int] == s@);
            return true;
        }
        i = i + 1;
    }
    assert forall|j: int| 0 <= j < strings_view(v@).len() implies strings_view(v@)[j] != s@ by {
        assert(strings_view(v@)[j] == v@[j]@);
    }
    false
}

/// `acc` with `param` joined to it.
fn join_param_exec(acc: &mut String, param: &String)
    ensures
        final(acc)@ == join_param(old(acc)@, param@),
{
    if acc.as_str().is_empty() {
        acc.append(param.as_str());
        assert(acc@ =~= param@);
    } else {
        push_char(acc, '&');
        acc.append(param.as_str());
    }
}

/// The query kept and the query skipped.
fn split_query(config: &RouterConfig, query: &String) -> (res: (String, String))
    ensures
        (res.0@, res.1@) == query_split(*config, query@),
{
    if config.ignore_all_query_parameters {
        return (String::new(), query.clone());
    }
    let pairs = form_urlencoded_pairs(query.as_str());
    let mut hash_query = linked_new();
    let ghost pv = pairs_view(pairs@);
    let mut i: usize = 0;
    assert(pv.take(0) =~= Seq::<(Seq<char>, Seq<char>)>::empty());
    while i < pairs.len()
        invariant
            i <= pairs@.len(),
            pv == pairs_view(pairs@),
            linked_entries(hash_query) == linked_of(pv.take(i as int)),
        decreases pairs@.len() - i,
    {
        proof {
            assert(pv.take(i + 1).drop_last() =~= pv.take(i as int));
            assert(pv.take(i + 1).last() == (pairs@[i as int].0@, pairs@[i as int].1@));
        }
        linked_insert(&mut hash_query, pairs[i].0.clone(), pairs[i].1.clone());
        i = i + 1;
    }
    assert(pv.take(i as int) =~= pv);
    let ghost entries = linked_entries(hash_query);
    let mut keys = linked_keys(&hash_query);
    if config.ignore_query_param_order {
        keys = sort_string_vec(&keys);
    }
    let ghost kv = strings_view(keys@);
    let mut query_string = String::new();
    let mut skipped = String::new();
    let mut k: usize = 0;
    assert(kv.take(0) =~= Seq::<Seq<char>>::empty());
    while k < keys.len()
        invariant
            k <= keys@.len(),
            kv == strings_view(keys@),
            entries == linked_entries(hash_query),
            (query_string@, skipped@) == split_params(kv.take(k as int), entries, strings_view(config.marketing_query_params@)),
        decreases keys@.len() - k,
    {
        proof {
            assert(kv.take(k + 1).drop_last() =~= kv.take(k as int));
            assert(kv.take(k + 1).last() == keys@[k as int]@);
        }
        let key = &keys[k];
        let value = linked_get(&hash_query, key.as_str());
        let mut param = percent_encode(key.as_str(), true);
        match &value {
            Some(v) => {
                if !v.as_str().is_empty() {
                    push_char(&mut param, '=');
                    param.append(percent_encode(v.as_str(), true).as_str());
                }
            },
            None => {},
        }
        if strings_contain(&config.marketing_query_params, key.as_str()) {
            join_param_exec(&mut skipped, &param);
        } else {
            join_param_exec(&mut query_string, &param);
        }
        k = k + 1;
    }
    assert(kv.take(k as int) =~= kv);
    (query_string, skipped)
}

/// A path and query, with what the rules match and what they leave out.
#[derive(Debug)]
pub struct PathAndQueryWithSkipped {
    pub path_and_query: String,
    pub path_and_query_matching: Option<String>,
    pub skipped_query_params: Option<String>,
    pub original: String,
}

/// `s` in lowercase where the case is ignored.
pub open spec fn case_of(ignore_case: bool, s: Seq<char>) -> Seq<char> {
    if ignore_case {
        spec_to_lowercase(s)
    } else {
        s
    }
}

fn with_case(ignore_case: bool, s: &String) -> (res: String)
    ensures
        res@ == case_of(ignore_case, s@),
{
    if ignore_case {
        to_lowercase(s.as_str())
    } else {
        s.clone()
    }
}

impl PathAndQueryWithSkipped {
    /// A path and query matched as it is given.
    pub fn from_static(path_and_query_str: &str) -> (res: Self)
        ensures
            res.path_and_query@ == percent_encoded(encode_utf8(path_and_query_str@), false),
            opt_view(res.path_and_query_matching) == Some(path_and_query_str@),
            res.original@ == path_and_query_str@,
            res.skipped_query_params is None,
    {
        let url = sanitize_url(path_and_query_str);
        PathAndQueryWithSkipped {
            path_and_query_matching: Some(String::from_str(path_and_query_str)),
            path_and_query: url,
            original: String::from_str(path_and_query_str),
            skipped_query_params: None,
        }
    }
}

impl PathAndQueryWithSkipped {
    /// A path and query as a router reads it: with marketing or all query parameters
    /// ignored, these leave the query, sorted where their order is ignored, and the
    /// marketing ones are kept aside where they are passed on.
    pub fn from_config(config: &RouterConfig, path_and_query_str: &str) -> (res: Self)
        ensures
            (res.path_and_query@, opt_view(res.path_and_query_matching), opt_view(res.skipped_query_params), res.original@)
                == spec_from_config(*config, path_and_query_str@),
            !config.pass_marketing_query_params_to_target ==> res.skipped_query_params is None,
            !config.ignore_marketing_query_params && !config.ignore_all_query_parameters ==> res.skipped_query_params
                is None,
            res.original@ == path_and_query_str@,
    {
        proof {
            law_query_params_are_kept_aside_only_when_passed_on(*config, path_and_query_str@);
        }
        let url = sanitize_url(path_and_query_str);
        if !config.ignore_marketing_query_params && !config.ignore_all_query_parameters {
            return PathAndQueryWithSkipped {
                path_and_query_matching: Some(with_case(config.ignore_path_and_query_case, &url)),
                path_and_query: url,
                original: String::from_str(path_and_query_str),
                skipped_query_params: None,
            };
        }
        let (path, query) = match parse_path_and_query(url.as_str()) {
            Some(p) => p,
            None => {
                return PathAndQueryWithSkipped {
                    path_and_query_matching: Some(with_case(config.ignore_path_and_query_case, &url)),
                    path_and_query: url,
                    original: String::from_str(path_and_query_str),
                    skipped_query_params: None,
                };
            },
        };
        let ghost path_v = path@;
        let ghost split = match opt_view(query) {
            Some(q) => query_split(*config, q),
            None => (Seq::<char>::empty(), Seq::<char>::empty()),
        };
        let mut new_path_and_query = path;
        let mut skipped_query_params = String::new();
        match &query {
            Some(q) => {
                let (query_string, skipped) = split_query(config, q);
                skipped_query_params = skipped;
                if !query_string.as_str().is_empty() {
                    push_char(&mut new_path_and_query, '?');
                    new_path_and_query.append(query_string.as_str());
                }
                assert(new_path_and_query@ == if split.0.len() > 0 {
                    path_v + seq!['?'] + split.0
                } else {
                    path_v
                });
            },
            None => {
                assert(new_path_and_query@ == path_v);
            },
        }
        assert(skipped_query_params@ == split.1);
        let matching = with_case(config.ignore_path_and_query_case, &new_path_and_query);
        PathAndQueryWithSkipped {
            path_and_query_matching: Some(matching),
            path_and_query: new_path_and_query,
            original: String::from_str(path_and_query_str),
            skipped_query_params: if config.pass_marketing_query_params_to_target && !skipped_query_params.as_str().is_empty() {
                Some(skipped_query_params)
            } else {
                None
            },
        }
    }
}

} // verus!
