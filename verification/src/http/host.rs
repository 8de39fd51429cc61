use vstd::prelude::*;

verus! {

/// `80` or `443`, as characters.
pub open spec fn spec_is_default_port(port: Seq<char>) -> bool {
    port =~= seq!['8', '0'] || port =~= seq!['4', '4', '3']
}

/// Index of the first occurrence of `c` in `s`, if any.
#[verifier::opaque]
pub open spec fn first_index_of(s: Seq<char>, c: char) -> Option<int> {
    if exists|i: int| 0 <= i < s.len() && s[i] == c {
        Some(choose|i: int| 0 <= i < s.len() && s[i] == c && forall|j: int| 0 <= j < i ==> s[j] != c)
    } else {
        None
    }
}

/// Index of the last occurrence of `c` in `s`, if any.
#[verifier::opaque]
pub open spec fn last_index_of(s: Seq<char>, c: char) -> Option<int> {
    if exists|i: int| 0 <= i < s.len() && s[i] == c {
        Some(choose|i: int| 0 <= i < s.len() && s[i] == c && forall|j: int| i < j < s.len() ==> s[j] != c)
    } else {
        None
    }
}

/// The first occurrence is the one that no earlier occurrence precedes.
proof fn lemma_first_index_of(s: Seq<char>, c: char, i: int)
    requires
        0 <= i < s.len(),
        s[i] == c,
        forall|j: int| 0 <= j < i ==> s[j] != c,
    ensures
        first_index_of(s, c) == Some(i),
{
    reveal(first_index_of);
    let k = choose|k: int| 0 <= k < s.len() && s[k] == c && forall|j: int| 0 <= j < k ==> s[j] != c;
    assert(0 <= k < s.len() && s[k] == c && forall|j: int| 0 <= j < k ==> s[j] != c);
    if k < i { assert(s[k] != c); } else if k > i { assert(s[i] != c); }
}

/// The last occurrence is the one that no later occurrence follows.
proof fn lemma_last_index_of(s: Seq<char>, c: char, i: int)
    requires
        0 <= i < s.len(),
        s[i] == c,
        forall|j: int| i < j < s.len() ==> s[j] != c,
    ensures
        last_index_of(s, c) == Some(i),
{
    reveal(last_index_of);
    let k = choose|k: int| 0 <= k < s.len() && s[k] == c && forall|j: int| k < j < s.len() ==> s[j] != c;
    assert(0 <= k < s.len() && s[k] == c && forall|j: int| k < j < s.len() ==> s[j] != c);
    if k < i { assert(s[i] != c); } else if k > i { assert(s[k] != c); }
}

/// Length of what `strip_default_port` keeps of `host`.
pub open spec fn kept_len(host: Seq<char>) -> int {
    if host.len() > 0 && host[0] == '[' {
        match first_index_of(host, ']') {
            Some(end) => if end + 1 < host.len() && host[end + 1] == ':'
                && spec_is_default_port(host.skip(end + 2)) {
                end + 1
            } else {
                host.len() as int
            },
            None => host.len() as int,
        }
    } else {
        match last_index_of(host, ':') {
            Some(colon) => if colon > 0 && first_index_of(host, ':') == Some(colon)
                && spec_is_default_port(host.skip(colon + 1)) {
                colon
            } else {
                host.len() as int
            },
            None => host.len() as int,
        }
    }
}

/// What `strip_default_port` gives back for `host`.
pub open spec fn spec_strip_default_port(host: Seq<char>) -> Seq<char> {
    host.take(kept_len(host))
}

/// What `first_index_of` tells of the occurrence it finds.
proof fn lemma_first_index_of_found(s: Seq<char>, c: char)
    ensures
        match first_index_of(s, c) {
            Some(i) => 0 <= i < s.len() && s[i] == c && forall|j: int| 0 <= j < i ==> s[j] != c,
            None => forall|j: int| 0 <= j < s.len() ==> s[j] != c,
        },
{
    reveal(first_index_of);
    if exists|i: int| 0 <= i < s.len() && s[i] == c {
        let w = choose|i: int| 0 <= i < s.len() && s[i] == c;
        lemma_least_occurrence(s, c, w);
    }
}

proof fn lemma_least_occurrence(s: Seq<char>, c: char, w: int)
    requires
        0 <= w < s.len(),
        s[w] == c,
    ensures
        exists|i: int| 0 <= i < s.len() && s[i] == c && forall|j: int| 0 <= j < i ==> s[j] != c,
    decreases w,
{
    if exists|j: int| 0 <= j < w && s[j] == c {
        let v = choose|j: int| 0 <= j < w && s[j] == c;
        lemma_least_occurrence(s, c, v);
    } else {
        assert(forall|j: int| 0 <= j < w ==> s[j] != c);
    }
}

/// Without any `c`, there is no last one.
proof fn lemma_last_index_of_none(s: Seq<char>, c: char)
    requires
        forall|j: int| 0 <= j < s.len() ==> s[j] != c,
    ensures
        last_index_of(s, c) is None,
{
    reveal(last_index_of);
}

/// Stripping the default port twice is stripping it once.
pub proof fn law_strip_default_port_is_idempotent(host: Seq<char>)
    ensures
        spec_strip_default_port(spec_strip_default_port(host)) == spec_strip_default_port(host),
{
    let k = kept_len(host);
    let r = spec_strip_default_port(host);
    lemma_first_index_of_found(host, ']');
    lemma_first_index_of_found(host, ':');
    if k == host.len() {
        assert(r =~= host);
    } else if host.len() > 0 && host[0] == '[' {
        let end = first_index_of(host, ']')->0;
        assert(k == end + 1);
        assert(r.len() == end + 1);
        assert(r[0] == '[');
        assert(r[end] == ']');
        assert forall|j: int| 0 <= j < end implies r[j] != ']' by {
            assert(r[j] == host[j]);
        }
        lemma_first_index_of(r, ']', end);
        assert(kept_len(r) == r.len());
        assert(r.take(r.len() as int) =~= r);
    } else {
        let colon = first_index_of(host, ':')->0;
        assert(k == colon);
        assert(r.len() == colon);
        assert(r[0] == host[0]);
        assert forall|j: int| 0 <= j < r.len() implies r[j] != ':' by {
            assert(r[j] == host[j]);
        }
        lemma_last_index_of_none(r, ':');
        assert(kept_len(r) == r.len());
        assert(r.take(r.len() as int) =~= r);
    }
}

/// 80 and 443 are dropped from a host whatever the scheme, any other port is kept (`host:8080` rules).
pub fn is_default_port(port: &str) -> (res: bool)
    ensures
        res == spec_is_default_port(port@),
{
    let n = port.unicode_len();
    if n == 2 {
        port.get_char(0) == '8' && port.get_char(1) == '0'
    } else if n == 3 {
        port.get_char(0) == '4' && port.get_char(1) == '4' && port.get_char(2) == '3'
    } else {
        false
    }
}

/// Position of the first `c` in `s`.
fn find_char(s: &str, c: char) -> (res: Option<usize>)
    ensures
        match res { Some(i) => first_index_of(s@, c) == Some(i as int), None => first_index_of(s@, c) is None },
        res matches Some(i) ==> i < s@.len() && s@[i as int] == c,
{
    let n = s.unicode_len();
    let mut i: usize = 0;
    while i < n
        invariant
            n == s@.len(),
            i <= n,
            forall|j: int| 0 <= j < i ==> s@[j] != c,
        decreases n - i,
    {
        if s.get_char(i) == c {
            proof { lemma_first_index_of(s@, c, i as int); }
            return Some(i);
        }
        i = i + 1;
    }
    proof { reveal(first_index_of); }
    None
}

/// Position of the last `c` in `s`.
fn rfind_char(s: &str, c: char) -> (res: Option<usize>)
    ensures
        match res { Some(i) => last_index_of(s@, c) == Some(i as int), None => last_index_of(s@, c) is None },
        res matches Some(i) ==> i < s@.len() && s@[i as int] == c,
{
    let n = s.unicode_len();
    let mut i: usize = n;
    while i > 0
        invariant
            n == s@.len(),
            i <= n,
            forall|j: int| i <= j < n ==> s@[j] != c,
        decreases i,
    {
        if s.get_char(i - 1) == c {
            proof { lemma_last_index_of(s@, c, i - 1); }
            return Some(i - 1);
        }
        i = i - 1;
    }
    proof { reveal(last_index_of); }
    None
}

/// Removes a default port from `host[:port]`, the result is a prefix of the input.
pub fn strip_default_port(host: &str) -> (res: &str)
    ensures
        res@ == spec_strip_default_port(host@),
        res@.is_prefix_of(host@),
{
    let n = host.unicode_len();
    let keep: usize = if n > 0 && host.get_char(0) == '[' {
        match find_char(host, ']') {
            Some(end) => {
                assert(end + 1 < n ==> host@.subrange(end + 2, n as int) =~= host@.skip(end + 2));
                if end + 1 < n && host.get_char(end + 1) == ':' && is_default_port(host.substring_char(end + 2, n)) {
                    end + 1
                } else {
                    n
                }
            },
            None => n,
        }
    } else {
        match rfind_char(host, ':') {
            Some(colon) => {
                let first = find_char(host, ':');
                assert(host@.subrange(colon + 1, n as int) =~= host@.skip(colon + 1));
                let same = match first { Some(f) => f == colon, None => false };
                if colon > 0 && same && is_default_port(host.substring_char(colon + 1, n)) {
                    assert(first_index_of(host@, ':') == Some(colon as int));
                    colon
                } else {
                    assert(!(colon > 0 && first_index_of(host@, ':') == Some(colon as int)
                        && spec_is_default_port(host@.skip(colon + 1))));
                    n
                }
            },
            None => n,
        }
    };
    assert(keep == kept_len(host@));
    let res = host.substring_char(0, keep);
    assert(res@ =~= host@.take(keep as int));
    res
}

/// Owned variant of [`strip_default_port`].
pub fn without_default_port(host: String) -> (res: String)
    ensures
        res@ == spec_strip_default_port(host@),
{
    strip_default_port(host.as_str()).to_owned()
}

} // verus!
