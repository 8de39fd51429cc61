//! String helpers shared by the filters, and the few calls into std's
//! string handling that vstd does not specify.
use vstd::prelude::*;
use vstd::utf8::*;

verus! {

/// Declares std's `FromUtf8Error` so that results of `String::from_utf8` can be carried.
#[verifier::external_type_specification]
#[verifier::external_body]
pub struct ExFromUtf8Error(std::string::FromUtf8Error);

/// The characters that `bytes` decode to, when they are valid UTF-8.
pub open spec fn spec_decode(bytes: Seq<u8>) -> Option<Seq<char>> {
    if valid_utf8(bytes) { Some(decode_utf8(bytes)) } else { None }
}

/// Valid UTF-8 splits into valid UTF-8 right after any ASCII byte.
pub proof fn lemma_split_after_ascii(b: Seq<u8>, k: int)
    requires
        valid_utf8(b),
        0 <= k < b.len(),
        b[k] < 0x80,
    ensures
        valid_utf8(b.subrange(0, k + 1)),
        valid_utf8(b.subrange(k + 1, b.len() as int)),
{
    is_char_boundary_iff_not_is_continuation_byte(b, k);
    valid_utf8_split(b, k);
    let c = b.subrange(k, b.len() as int);
    assert(pop_first_scalar(c) =~= b.subrange(k + 1, b.len() as int));
    let one = seq![b[k]];
    assert(pop_first_scalar(one) =~= Seq::<u8>::empty());
    assert(valid_first_scalar(one));
    assert(valid_utf8(Seq::<u8>::empty()));
    assert(valid_utf8(one));
    valid_utf8_concat(b.subrange(0, k), one);
    assert(b.subrange(0, k) + one =~= b.subrange(0, k + 1));
}

/// In valid UTF-8, the bytes strictly between two ASCII bytes are valid UTF-8.
pub proof fn lemma_valid_between_ascii(b: Seq<u8>, i: int, j: int)
    requires
        valid_utf8(b),
        0 <= i < j < b.len(),
        b[i] < 0x80,
        b[j] < 0x80,
    ensures
        valid_utf8(b.subrange(i + 1, j)),
{
    is_char_boundary_iff_not_is_continuation_byte(b, j);
    valid_utf8_split(b, j);
    let p = b.subrange(0, j);
    lemma_split_after_ascii(p, i);
    assert(p.subrange(i + 1, p.len() as int) =~= b.subrange(i + 1, j));
}

/// Calls `String::from_utf8`: std documents that it succeeds exactly on valid UTF-8 and
/// then holds the decoded characters.
#[verifier::external_body]
pub(crate) fn string_from_utf8(bytes: Vec<u8>) -> (res: Result<String, std::string::FromUtf8Error>)
    ensures
        res is Ok <==> valid_utf8(bytes@),
        res matches Ok(s) ==> s@ == decode_utf8(bytes@),
{
    String::from_utf8(bytes)
}

/// What `str::to_lowercase` gives for a string (Unicode lowercase mapping).
pub uninterp spec fn spec_to_lowercase(s: Seq<char>) -> Seq<char>;

/// Calls `str::to_lowercase`; its result is a function of the characters alone.
#[verifier::external_body]
pub(crate) fn to_lowercase(s: &str) -> (res: String)
    ensures
        res@ == spec_to_lowercase(s@),
{
    s.to_lowercase()
}

/// What `str::to_uppercase` gives for a string (Unicode uppercase mapping).
pub uninterp spec fn spec_to_uppercase(s: Seq<char>) -> Seq<char>;

/// Calls `str::to_uppercase`; its result is a function of the characters alone.
#[verifier::external_body]
pub(crate) fn to_uppercase(s: &str) -> (res: String)
    ensures
        res@ == spec_to_uppercase(s@),
{
    s.to_uppercase()
}

/// Calls `String::push`, which std documents as appending one character.
#[verifier::external_body]
pub(crate) fn push_char(s: &mut String, c: char)
    ensures
        final(s)@ == old(s)@.push(c),
{
    s.push(c)
}

/// Encoding two strings one after the other gives the encoding of the two together.
pub proof fn lemma_encode_concat(a: Seq<char>, b: Seq<char>)
    ensures
        encode_utf8(a + b) == encode_utf8(a) + encode_utf8(b),
    decreases a.len(),
{
    if a.len() == 0 {
        assert(a + b =~= b);
        assert(encode_utf8(a) + encode_utf8(b) =~= encode_utf8(b));
    } else {
        assert((a + b).drop_first() =~= a.drop_first() + b);
        assert((a + b)[0] == a[0]);
        lemma_encode_concat(a.drop_first(), b);
        assert(encode_utf8(a + b) =~= encode_utf8(a) + encode_utf8(b));
    }
}

/// Copies `v[from..to]`.
pub fn copy_range(v: &Vec<u8>, from: usize, to: usize) -> (res: Vec<u8>)
    requires
        from <= to <= v@.len(),
    ensures
        res@ == v@.subrange(from as int, to as int),
{
    let mut res: Vec<u8> = Vec::new();
    let mut i = from;
    while i < to
        invariant
            from <= i <= to <= v@.len(),
            res@ == v@.subrange(from as int, i as int),
        decreases to - i,
    {
        res.push(v[i]);
        i = i + 1;
        assert(res@ =~= v@.subrange(from as int, i as int));
    }
    res
}

/// An optional string as plain values.
pub open spec fn opt_view(o: Option<String>) -> Option<Seq<char>> {
    match o {
        Some(s) => Some(s@),
        None => None,
    }
}

/// Whether `s` begins with `prefix`.
pub open spec fn spec_starts_with(s: Seq<char>, prefix: Seq<char>) -> bool {
    prefix.len() <= s.len() && s.take(prefix.len() as int) == prefix
}

/// Whether `s` begins with `prefix`.
pub fn starts_with(s: &str, prefix: &str) -> (res: bool)
    ensures
        res == spec_starts_with(s@, prefix@),
{
    let n = prefix.unicode_len();
    if n > s.unicode_len() {
        return false;
    }
    let mut i: usize = 0;
    while i < n
        invariant
            n == prefix@.len() <= s@.len(),
            i <= n,
            forall|j: int| 0 <= j < i ==> s@[j] == prefix@[j],
        decreases n - i,
    {
        if s.get_char(i) != prefix.get_char(i) {
            assert(s@.take(n as int)[i as int] != prefix@[i as int]);
            return false;
        }
        i = i + 1;
    }
    assert(s@.take(n as int) =~= prefix@);
    true
}

/// `s` with each occurrence of `pat` replaced by `rep`, from left to right, the
/// occurrences not overlapping; an empty `pat` occurs before each character and at the end.
pub open spec fn replace_all(s: Seq<char>, pat: Seq<char>, rep: Seq<char>) -> Seq<char>
    decreases s.len(),
{
    if pat.len() == 0 {
        if s.len() == 0 {
            rep
        } else {
            rep + seq![s[0]] + replace_all(s.drop_first(), pat, rep)
        }
    } else if s.len() < pat.len() {
        s
    } else if s.take(pat.len() as int) == pat {
        rep + replace_all(s.skip(pat.len() as int), pat, rep)
    } else {
        seq![s[0]] + replace_all(s.drop_first(), pat, rep)
    }
}

/// Whether `pat` occurs in `s`.
pub open spec fn seq_contains(s: Seq<char>, pat: Seq<char>) -> bool {
    exists|i: int| 0 <= i && i + pat.len() <= s.len() && #[trigger] s.subrange(i, i + pat.len()) == pat
}

/// Whether `pat` occurs in `s` at `i`.
fn occurs_at(s: &str, pat: &str, i: usize) -> (res: bool)
    requires
        i <= s@.len(),
    ensures
        res == (i + pat@.len() <= s@.len() && s@.subrange(i as int, i + pat@.len()) == pat@),
{
    let n = s.unicode_len();
    let m = pat.unicode_len();
    if m > n - i {
        return false;
    }
    let mut j: usize = 0;
    while j < m
        invariant
            n == s@.len(),
            m == pat@.len(),
            i + m <= n,
            j <= m,
            forall|k: int| 0 <= k < j ==> s@[i + k] == pat@[k],
        decreases m - j,
    {
        if s.get_char(i + j) != pat.get_char(j) {
            assert(s@.subrange(i as int, i + m)[j as int] != pat@[j as int]);
            return false;
        }
        j = j + 1;
    }
    assert(s@.subrange(i as int, i + m) =~= pat@);
    true
}

/// `s` with each occurrence of `pat` replaced by `rep`, as `str::replace` does.
pub fn replace(s: &str, pat: &str, rep: &str) -> (res: String)
    ensures
        res@ == replace_all(s@, pat@, rep@),
{
    let n = s.unicode_len();
    let m = pat.unicode_len();
    let mut out = String::new();
    let mut i: usize = 0;
    assert(s@.skip(0) =~= s@);
    assert(out@ + replace_all(s@, pat@, rep@) =~= replace_all(s@, pat@, rep@));
    while i < n
        invariant
            n == s@.len(),
            m == pat@.len(),
            i <= n,
            out@ + replace_all(s@.skip(i as int), pat@, rep@) == replace_all(s@, pat@, rep@),
        decreases n - i,
    {
        let ghost rest = s@.skip(i as int);
        if m > 0 && occurs_at(s, pat, i) {
            proof {
                assert(rest.take(m as int) =~= s@.subrange(i as int, i + m));
                assert(rest.skip(m as int) =~= s@.skip(i + m));
                assert(out@ + rep@ + replace_all(s@.skip(i + m), pat@, rep@) =~= out@ + replace_all(rest, pat@, rep@));
            }
            out.append(rep);
            i = i + m;
        } else {
            let c = s.get_char(i);
            if m == 0 {
                proof {
                    assert(rest.drop_first() =~= s@.skip(i + 1));
                    assert(rest[0] == c);
                    assert(out@ + rep@ + seq![c] + replace_all(s@.skip(i + 1), pat@, rep@) =~= out@ + replace_all(rest, pat@, rep@));
                }
                out.append(rep);
            } else {
                proof {
                    if rest.len() >= m {
                        assert(rest.take(m as int) =~= s@.subrange(i as int, i + m));
                    }
                    assert(rest.drop_first() =~= s@.skip(i + 1));
                    assert(rest[0] == c);
                    assert(out@.push(c) + replace_all(s@.skip(i + 1), pat@, rep@) =~= out@ + replace_all(rest, pat@, rep@));
                }
            }
            let ghost before = out@;
            push_char(&mut out, c);
            assert(out@ =~= before + seq![c]);
            i = i + 1;
        }
    }
    proof {
        assert(s@.skip(i as int).len() == 0);
    }
    if m == 0 {
        out.append(rep);
    } else {
        assert(out@ + Seq::<char>::empty() =~= out@);
    }
    out
}

/// Whether `pat` occurs in `s`, as `str::contains` tells.
pub fn contains(s: &str, pat: &str) -> (res: bool)
    ensures
        res == seq_contains(s@, pat@),
{
    let n = s.unicode_len();
    let mut i: usize = 0;
    while i < n
        invariant
            n == s@.len(),
            i <= n,
            forall|j: int| 0 <= j < i ==> !(j + pat@.len() <= s@.len() && #[trigger] s@.subrange(j, j + pat@.len()) == pat@),
        decreases n - i,
    {
        if occurs_at(s, pat, i) {
            return true;
        }
        i = i + 1;
    }
    if occurs_at(s, pat, n) {
        return true;
    }
    assert forall|j: int| 0 <= j && j + pat@.len() <= s@.len() implies #[trigger] s@.subrange(j, j + pat@.len()) != pat@ by {
        assert(j <= n);
    }
    false
}

/// Inserting `x` into `order`: after every index whose length is at least that of `x`.
pub open spec fn insert_by_length(order: Seq<int>, lens: Seq<nat>, x: int) -> Seq<int>
    decreases order.len(),
{
    if order.len() == 0 {
        seq![x]
    } else if lens[order[0]] < lens[x] {
        seq![x] + order
    } else {
        seq![order[0]] + insert_by_length(order.drop_first(), lens, x)
    }
}

/// The indices of the first `n` lengths, longest first, equal lengths in their order.
pub open spec fn order_by_length(lens: Seq<nat>, n: int) -> Seq<int>
    decreases n,
{
    if n <= 0 {
        Seq::<int>::empty()
    } else {
        insert_by_length(order_by_length(lens, n - 1), lens, n - 1)
    }
}

proof fn lemma_insert_by_length_at(order: Seq<int>, lens: Seq<nat>, x: int, j: int)
    requires
        0 <= j <= order.len(),
        forall|k: int| 0 <= k < j ==> lens[#[trigger] order[k]] >= lens[x],
        j < order.len() ==> lens[order[j]] < lens[x],
    ensures
        insert_by_length(order, lens, x) == order.take(j).push(x) + order.skip(j),
    decreases order.len(),
{
    if order.len() == 0 {
        assert(order.take(j).push(x) + order.skip(j) =~= seq![x]);
    } else if j == 0 {
        assert(order.take(0).push(x) + order.skip(0) =~= seq![x] + order);
    } else {
        assert forall|k: int| 0 <= k < j - 1 implies lens[#[trigger] order.drop_first()[k]] >= lens[x] by {
            assert(order.drop_first()[k] == order[k + 1]);
        }
        lemma_insert_by_length_at(order.drop_first(), lens, x, j - 1);
        assert(seq![order[0]] + (order.drop_first().take(j - 1).push(x) + order.drop_first().skip(j - 1))
            =~= order.take(j).push(x) + order.skip(j));
    }
}

/// The order holds each of the first `n` indices' places.
pub proof fn lemma_order_in_range(lens: Seq<nat>, n: int)
    requires
        0 <= n <= lens.len(),
    ensures
        order_by_length(lens, n).len() == n,
        forall|j: int| 0 <= j < n ==> 0 <= #[trigger] order_by_length(lens, n)[j] < n,
    decreases n,
{
    if n > 0 {
        lemma_order_in_range(lens, n - 1);
        lemma_insert_in_range(order_by_length(lens, n - 1), lens, n - 1, n);
    }
}

proof fn lemma_insert_in_range(order: Seq<int>, lens: Seq<nat>, x: int, n: int)
    requires
        0 <= x < n,
        forall|j: int| 0 <= j < order.len() ==> 0 <= #[trigger] order[j] < n,
    ensures
        insert_by_length(order, lens, x).len() == order.len() + 1,
        forall|j: int| 0 <= j < order.len() + 1 ==> 0 <= #[trigger] insert_by_length(order, lens, x)[j] < n,
    decreases order.len(),
{
    if order.len() > 0 && !(lens[order[0]] < lens[x]) {
        assert forall|j: int| 0 <= j < order.drop_first().len() implies 0 <= #[trigger] order.drop_first()[j] < n by {
            assert(order.drop_first()[j] == order[j + 1]);
        }
        lemma_insert_in_range(order.drop_first(), lens, x, n);
    }
}

/// Every index of `order` has a length at least that of every index after it.
pub open spec fn longest_first(order: Seq<int>, lens: Seq<nat>) -> bool {
    forall|a: int, b: int| 0 <= a < b < order.len() ==> lens[#[trigger] order[a]] >= lens[#[trigger] order[b]]
}

proof fn lemma_insert_keeps_longest_first(order: Seq<int>, lens: Seq<nat>, x: int)
    requires
        longest_first(order, lens),
    ensures
        longest_first(insert_by_length(order, lens, x), lens),
        insert_by_length(order, lens, x).len() == order.len() + 1,
        forall|i: int| 0 <= i < insert_by_length(order, lens, x).len() ==> (#[trigger] insert_by_length(order, lens, x)[i]
            == x || order.contains(insert_by_length(order, lens, x)[i])),
    decreases order.len(),
{
    let r = insert_by_length(order, lens, x);
    if order.len() == 0 {
    } else if lens[order[0]] < lens[x] {
        assert forall|a: int, b: int| 0 <= a < b < r.len() implies lens[#[trigger] r[a]] >= lens[#[trigger] r[b]] by {
            if a == 0 {
                assert(r[b] == order[b - 1]);
                if b - 1 > 0 {
                    assert(lens[order[0]] >= lens[order[b - 1]]);
                }
            } else {
                assert(r[a] == order[a - 1]);
                assert(r[b] == order[b - 1]);
            }
        }
        assert forall|i: int| 0 <= i < r.len() implies (#[trigger] r[i] == x || order.contains(r[i])) by {
            if i > 0 {
                assert(r[i] == order[i - 1]);
            }
        }
    } else {
        let rest = order.drop_first();
        assert forall|a: int, b: int| 0 <= a < b < rest.len() implies lens[#[trigger] rest[a]] >= lens[#[trigger] rest[b]] by {
            assert(rest[a] == order[a + 1]);
            assert(rest[b] == order[b + 1]);
        }
        lemma_insert_keeps_longest_first(rest, lens, x);
        let t = insert_by_length(rest, lens, x);
        assert(r == seq![order[0]] + t);
        assert forall|a: int, b: int| 0 <= a < b < r.len() implies lens[#[trigger] r[a]] >= lens[#[trigger] r[b]] by {
            if a == 0 {
                assert(r[b] == t[b - 1]);
                if t[b - 1] == x {
                } else {
                    assert(rest.contains(t[b - 1]));
                    let j = choose|j: int| 0 <= j < rest.len() && rest[j] == t[b - 1];
                    assert(rest[j] == order[j + 1]);
                }
            } else {
                assert(r[a] == t[a - 1]);
                assert(r[b] == t[b - 1]);
            }
        }
        assert forall|i: int| 0 <= i < r.len() implies (#[trigger] r[i] == x || order.contains(r[i])) by {
            if i > 0 {
                assert(r[i] == t[i - 1]);
                if t[i - 1] != x {
                    let j = choose|j: int| 0 <= j < rest.len() && rest[j] == t[i - 1];
                    assert(order[j + 1] == rest[j]);
                }
            } else {
                assert(order[0] == order[0]);
                assert(order.contains(order[0]));
            }
        }
    }
}

/// The order puts the longest first: the length at each place is at least the one at every
/// later place.
pub proof fn law_order_by_length_puts_the_longest_first(lens: Seq<nat>, n: int)
    ensures
        longest_first(order_by_length(lens, n), lens),
    decreases n,
{
    if n > 0 {
        law_order_by_length_puts_the_longest_first(lens, n - 1);
        lemma_insert_keeps_longest_first(order_by_length(lens, n - 1), lens, n - 1);
    }
}

/// Indices `0..lens.len()` ordered longest first, equal lengths kept in their order.
pub fn order_by_length_desc(lens: &Vec<usize>) -> (res: Vec<usize>)
    ensures
        res@.map_values(|i: usize| i as int) == order_by_length(lens@.map_values(|l: usize| l as nat), lens@.len() as int),
{
    let ghost ls = lens@.map_values(|l: usize| l as nat);
    let mut order: Vec<usize> = Vec::new();
    let mut x: usize = 0;
    while x < lens.len()
        invariant
            x <= lens@.len(),
            ls == lens@.map_values(|l: usize| l as nat),
            order@.map_values(|i: usize| i as int) == order_by_length(ls, x as int),
            forall|k: int| 0 <= k < order@.len() ==> #[trigger] order@[k] < x,
            forall|a: int, b: int| 0 <= a < b < order@.len() ==> lens@[#[trigger] order@[a] as int] >= lens@[#[trigger] order@[b] as int],
        decreases lens@.len() - x,
    {
        let ghost ov = order@.map_values(|i: usize| i as int);
        let mut j: usize = 0;
        while j < order.len() && lens[order[j]] >= lens[x]
            invariant
                j <= order@.len(),
                x < lens@.len(),
                forall|k: int| 0 <= k < order@.len() ==> #[trigger] order@[k] < x,
                forall|k: int| 0 <= k < j ==> lens@[#[trigger] order@[k] as int] >= lens@[x as int],
            decreases order@.len() - j,
        {
            j = j + 1;
        }
        proof {
            assert forall|k: int| 0 <= k < j implies ls[#[trigger] ov[k]] >= ls[x as int] by {
                assert(ov[k] == order@[k] as int);
            }
            if j < order@.len() {
                assert(ov[j as int] == order@[j as int] as int);
            }
            lemma_insert_by_length_at(ov, ls, x as int, j as int);
        }
        let ghost old_order = order@;
        order.insert(j, x);
        proof {
            assert(order@.map_values(|i: usize| i as int) =~= ov.take(j as int).push(x as int) + ov.skip(j as int));
            assert forall|a: int, b: int| 0 <= a < b < order@.len() implies lens@[#[trigger] order@[a] as int] >= lens@[#[trigger] order@[b] as int] by {
                let oa = if a < j { a } else { a - 1 };
                let ob = if b < j { b } else { b - 1 };
                if a != j && b != j {
                    assert(order@[a] == old_order[oa]);
                    assert(order@[b] == old_order[ob]);
                } else if a == j {
                    assert(order@[b] == old_order[ob]);
                    assert(ob >= j);
                    if ob > j {
                        assert(lens@[old_order[j as int] as int] >= lens@[old_order[ob] as int]);
                    }
                } else {
                    assert(order@[a] == old_order[oa]);
                }
            }
        }
        x = x + 1;
    }
    order
}

/// Whether `a` comes before `b`, character by character, a prefix first.
pub open spec fn lex_lt(a: Seq<char>, b: Seq<char>) -> bool
    decreases a.len(),
{
    if a.len() == 0 {
        b.len() > 0
    } else if b.len() == 0 {
        false
    } else if a[0] != b[0] {
        (a[0] as u32) < (b[0] as u32)
    } else {
        lex_lt(a.drop_first(), b.drop_first())
    }
}

proof fn lemma_lex_lt_skip(a: Seq<char>, b: Seq<char>, i: int)
    requires
        0 <= i <= a.len(),
        i <= b.len(),
        forall|j: int| 0 <= j < i ==> a[j] == b[j],
    ensures
        lex_lt(a, b) == lex_lt(a.skip(i), b.skip(i)),
    decreases i,
{
    if i > 0 {
        assert(a.skip(1).skip(i - 1) =~= a.skip(i));
        assert(b.skip(1).skip(i - 1) =~= b.skip(i));
        assert(a.drop_first() =~= a.skip(1));
        assert(b.drop_first() =~= b.skip(1));
        lemma_lex_lt_skip(a.drop_first(), b.drop_first(), i - 1);
    } else {
        assert(a.skip(0) =~= a);
        assert(b.skip(0) =~= b);
    }
}

/// Whether `a` comes before `b` as strings do.
pub fn str_lt(a: &str, b: &str) -> (res: bool)
    ensures
        res == lex_lt(a@, b@),
{
    let n = a.unicode_len();
    let m = b.unicode_len();
    let mut i: usize = 0;
    while i < n && i < m
        invariant
            n == a@.len(),
            m == b@.len(),
            i <= n,
            i <= m,
            forall|j: int| 0 <= j < i ==> a@[j] == b@[j],
        decreases n - i,
    {
        let x = a.get_char(i);
        let y = b.get_char(i);
        if x != y {
            proof {
                lemma_lex_lt_skip(a@, b@, i as int);
                assert(a@.skip(i as int)[0] == x);
                assert(b@.skip(i as int)[0] == y);
            }
            return (x as u32) < (y as u32);
        }
        i = i + 1;
    }
    proof {
        lemma_lex_lt_skip(a@, b@, i as int);
    }
    i < m
}

/// `x` put into `sorted` before the first string it comes before.
pub open spec fn insert_sorted(sorted: Seq<Seq<char>>, x: Seq<char>) -> Seq<Seq<char>>
    decreases sorted.len(),
{
    if sorted.len() == 0 {
        seq![x]
    } else if lex_lt(x, sorted[0]) {
        seq![x] + sorted
    } else {
        seq![sorted[0]] + insert_sorted(sorted.drop_first(), x)
    }
}

/// The strings in order, as an insertion sort puts them.
pub open spec fn sort_strings(s: Seq<Seq<char>>) -> Seq<Seq<char>>
    decreases s.len(),
{
    if s.len() == 0 {
        Seq::<Seq<char>>::empty()
    } else {
        insert_sorted(sort_strings(s.drop_last()), s.last())
    }
}

proof fn lemma_insert_sorted_at(sorted: Seq<Seq<char>>, x: Seq<char>, j: int)
    requires
        0 <= j <= sorted.len(),
        forall|k: int| 0 <= k < j ==> !lex_lt(x, #[trigger] sorted[k]),
        j < sorted.len() ==> lex_lt(x, sorted[j]),
    ensures
        insert_sorted(sorted, x) == sorted.take(j).push(x) + sorted.skip(j),
    decreases sorted.len(),
{
    if sorted.len() == 0 {
        assert(sorted.take(j).push(x) + sorted.skip(j) =~= seq![x]);
    } else if j == 0 {
        assert(sorted.take(0).push(x) + sorted.skip(0) =~= seq![x] + sorted);
    } else {
        assert forall|k: int| 0 <= k < j - 1 implies !lex_lt(x, #[trigger] sorted.drop_first()[k]) by {
            assert(sorted.drop_first()[k] == sorted[k + 1]);
        }
        lemma_insert_sorted_at(sorted.drop_first(), x, j - 1);
        assert(seq![sorted[0]] + (sorted.drop_first().take(j - 1).push(x) + sorted.drop_first().skip(j - 1))
            =~= sorted.take(j).push(x) + sorted.skip(j));
    }
}

proof fn lemma_lex_lt_irreflexive(a: Seq<char>)
    ensures
        !lex_lt(a, a),
    decreases a.len(),
{
    if a.len() > 0 {
        lemma_lex_lt_irreflexive(a.drop_first());
    }
}

proof fn lemma_lex_lt_total(a: Seq<char>, b: Seq<char>)
    ensures
        a == b || lex_lt(a, b) || lex_lt(b, a),
    decreases a.len(),
{
    if a.len() > 0 && b.len() > 0 && a[0] == b[0] {
        lemma_lex_lt_total(a.drop_first(), b.drop_first());
        if a.drop_first() == b.drop_first() {
            assert(a =~= seq![a[0]] + a.drop_first());
            assert(b =~= seq![b[0]] + b.drop_first());
        }
    } else if a.len() == 0 && b.len() == 0 {
        assert(a =~= b);
    } else if a.len() > 0 && b.len() > 0 {
        vstd::utf8::char_u32_cast(a[0], a[0] as u32);
        vstd::utf8::char_u32_cast(b[0], b[0] as u32);
    }
}

proof fn lemma_lex_lt_trans(a: Seq<char>, b: Seq<char>, c: Seq<char>)
    requires
        lex_lt(a, b),
        lex_lt(b, c),
    ensures
        lex_lt(a, c),
    decreases a.len(),
{
    if a.len() > 0 && b.len() > 0 && c.len() > 0 && a[0] == b[0] && b[0] == c[0] {
        lemma_lex_lt_trans(a.drop_first(), b.drop_first(), c.drop_first());
    }
}

/// Each string comes at the latest where no later one comes before it.
pub open spec fn non_decreasing(s: Seq<Seq<char>>) -> bool {
    forall|a: int, b: int| 0 <= a < b < s.len() ==> !lex_lt(#[trigger] s[b], #[trigger] s[a])
}

proof fn lemma_insert_sorted_keeps_order(sorted: Seq<Seq<char>>, x: Seq<char>)
    requires
        non_decreasing(sorted),
    ensures
        non_decreasing(insert_sorted(sorted, x)),
        insert_sorted(sorted, x).len() == sorted.len() + 1,
        forall|i: int| 0 <= i < insert_sorted(sorted, x).len() ==> (#[trigger] insert_sorted(sorted, x)[i] == x
            || sorted.contains(insert_sorted(sorted, x)[i])),
    decreases sorted.len(),
{
    let r = insert_sorted(sorted, x);
    if sorted.len() == 0 {
    } else if lex_lt(x, sorted[0]) {
        assert forall|a: int, b: int| 0 <= a < b < r.len() implies !lex_lt(#[trigger] r[b], #[trigger] r[a]) by {
            if a == 0 {
                assert(r[b] == sorted[b - 1]);
                lemma_lex_lt_total(x, sorted[0]);
                if b - 1 > 0 {
                    assert(!lex_lt(sorted[b - 1], sorted[0]));
                }
                if lex_lt(sorted[b - 1], x) {
                    lemma_lex_lt_trans(sorted[b - 1], x, sorted[0]);
                    if b - 1 == 0 {
                        lemma_lex_lt_irreflexive(sorted[0]);
                    }
                }
            } else {
                assert(r[a] == sorted[a - 1]);
                assert(r[b] == sorted[b - 1]);
            }
        }
        assert forall|i: int| 0 <= i < r.len() implies (#[trigger] r[i] == x || sorted.contains(r[i])) by {
            if i > 0 {
                assert(r[i] == sorted[i - 1]);
            }
        }
    } else {
        let rest = sorted.drop_first();
        assert forall|a: int, b: int| 0 <= a < b < rest.len() implies !lex_lt(#[trigger] rest[b], #[trigger] rest[a]) by {
            assert(rest[a] == sorted[a + 1]);
            assert(rest[b] == sorted[b + 1]);
        }
        lemma_insert_sorted_keeps_order(rest, x);
        let t = insert_sorted(rest, x);
        assert(r == seq![sorted[0]] + t);
        assert forall|a: int, b: int| 0 <= a < b < r.len() implies !lex_lt(#[trigger] r[b], #[trigger] r[a]) by {
            if a == 0 {
                assert(r[b] == t[b - 1]);
                if t[b - 1] != x {
                    let j = choose|j: int| 0 <= j < rest.len() && rest[j] == t[b - 1];
                    assert(rest[j] == sorted[j + 1]);
                }
            } else {
                assert(r[a] == t[a - 1]);
                assert(r[b] == t[b - 1]);
            }
        }
        assert forall|i: int| 0 <= i < r.len() implies (#[trigger] r[i] == x || sorted.contains(r[i])) by {
            if i > 0 {
                assert(r[i] == t[i - 1]);
                if t[i - 1] != x {
                    let j = choose|j: int| 0 <= j < rest.len() && rest[j] == t[i - 1];
                    assert(sorted[j + 1] == rest[j]);
                }
            } else {
                assert(sorted.contains(sorted[0]));
            }
        }
    }
}

/// Sorting puts no string before one that comes before it.
pub proof fn law_sort_strings_orders_them(s: Seq<Seq<char>>)
    ensures
        non_decreasing(sort_strings(s)),
        sort_strings(s).len() == s.len(),
    decreases s.len(),
{
    if s.len() > 0 {
        law_sort_strings_orders_them(s.drop_last());
        lemma_insert_sorted_keeps_order(sort_strings(s.drop_last()), s.last());
    }
}

/// The strings, sorted.
pub fn sort_string_vec(v: &Vec<String>) -> (res: Vec<String>)
    ensures
        res@.map_values(|s: String| s@) == sort_strings(v@.map_values(|s: String| s@)),
{
    let ghost sv = v@.map_values(|s: String| s@);
    let mut out: Vec<String> = Vec::new();
    let mut i: usize = 0;
    assert(sv.take(0) =~= Seq::<Seq<char>>::empty());
    while i < v.len()
        invariant
            i <= v@.len(),
            sv == v@.map_values(|s: String| s@),
            out@.map_values(|s: String| s@) == sort_strings(sv.take(i as int)),
        decreases v@.len() - i,
    {
        let ghost ov = out@.map_values(|s: String| s@);
        let x = v[i].clone();
        let mut j: usize = 0;
        while j < out.len() && !str_lt(x.as_str(), out[j].as_str())
            invariant
                j <= out@.len(),
                ov == out@.map_values(|s: String| s@),
                forall|k: int| 0 <= k < j ==> !lex_lt(x@, #[trigger] ov[k]),
            decreases out@.len() - j,
        {
            j = j + 1;
        }
        proof {
            lemma_insert_sorted_at(ov, x@, j as int);
            assert(sv.take(i + 1).drop_last() =~= sv.take(i as int));
            assert(sv.take(i + 1).last() == x@);
        }
        out.insert(j, x);
        assert(out@.map_values(|s: String| s@) =~= ov.take(j as int).push(sv[i as int]) + ov.skip(j as int));
        i = i + 1;
    }
    assert(sv.take(i as int) =~= sv);
    out
}

/// Character equality of two strings.
pub fn str_eq(a: &str, b: &str) -> (res: bool)
    ensures
        res == (a@ == b@),
{
    let n = a.unicode_len();
    if n != b.unicode_len() {
        return false;
    }
    let mut i: usize = 0;
    while i < n
        invariant
            n == a@.len() == b@.len(),
            i <= n,
            forall|j: int| 0 <= j < i ==> a@[j] == b@[j],
        decreases n - i,
    {
        if a.get_char(i) != b.get_char(i) {
            return false;
        }
        i = i + 1;
    }
    assert(a@ =~= b@);
    true
}

} // verus!
