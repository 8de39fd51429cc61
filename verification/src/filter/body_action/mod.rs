//! Body actions that follow a path of elements down the document and act on the last one.
use vstd::prelude::*;
use vstd::utf8::*;

pub mod body_append;
pub mod body_prepend;
pub mod body_replace;

use crate::html::{
    TokenType, Tokenizer, close_of, is_letter, is_raw_text_name, lemma_close_of, lemma_close_of_rest,
    lemma_name_end_unique, markup_at, name_ends_at, plain_rest, plain_up_to,
};
use crate::router::rule::BodyFilter;
use crate::text::{lemma_encode_concat, lemma_split_after_ascii, lemma_valid_between_ascii, spec_to_lowercase, str_eq};

pub use body_append::BodyAppend;
pub use body_prepend::BodyPrepend;
pub use body_replace::BodyReplace;

verus! {

/// What XPath expression `xpath` evaluates to, as a boolean, on the XML document `xml`;
/// `None` where the document does not parse or the expression does not evaluate.
pub uninterp spec fn spec_xpath_boolean(xml: Seq<char>, xpath: Seq<char>) -> Option<bool>;

/// Parses `xml` with `sxd_document::parser::parse`, evaluates `xpath` on the document with
/// `sxd_xpath::evaluate_xpath` and reads the value with `Value::boolean`. The result is a
/// function of the two strings; nothing more of it is stated.
#[verifier::external_body]
fn xpath_boolean(xml: &str, xpath: &str) -> (res: Option<bool>)
    ensures
        res == spec_xpath_boolean(xml@, xpath@),
{
    match sxd_document::parser::parse(xml) {
        Err(_) => None,
        Ok(package) => match sxd_xpath::evaluate_xpath(&package.as_document(), xpath) {
            Ok(value) => Some(value.boolean()),
            Err(_) => None,
        },
    }
}

/// Whether `expression` holds on the HTML `data`, read as XML; false where either cannot be read.
pub open spec fn spec_evaluate(data: Seq<char>, expression: Seq<char>) -> bool {
    spec_xpath_boolean(data, expression) == Some(true)
}

/// Whether `expression` holds on the HTML `data`.
pub fn evaluate(data: &str, expression: &str) -> (res: bool)
    ensures
        res == spec_evaluate(data@, expression@),
{
    match xpath_boolean(data, expression) {
        Some(b) => b,
        None => false,
    }
}

/// A list of strings as plain values.
pub open spec fn strings_view(v: Seq<String>) -> Seq<Seq<char>> {
    v.map_values(|s: String| s@)
}

/// A selector is given and is not empty.
pub open spec fn selector_set(s: Option<String>) -> bool {
    s matches Some(x) && x@.len() > 0
}

/// `b[s..e]` is a start tag that does not close itself: `<`, a letter, and so on up to a
/// `>` that does not follow `/`.
pub open spec fn open_tag_at(b: Seq<u8>, s: int, e: int) -> bool {
    &&& 0 <= s && s + 2 < e <= b.len()
    &&& b[s] == 60u8 && is_letter(b[s + 1])
    &&& b[e - 1] == 62u8 && b[e - 2] != 47u8
}

/// `b[s..e]` is an end tag: `</`, a letter, and so on up to `>`.
pub open spec fn close_tag_at(b: Seq<u8>, s: int, e: int) -> bool {
    &&& 0 <= s && s + 3 < e <= b.len()
    &&& b[s] == 60u8 && b[s + 1] == 47u8 && is_letter(b[s + 2])
    &&& b[e - 1] == 62u8
}

/// `res` is `content`, or `content` with `child` put in right after one of its start tags.
pub open spec fn inserts_after_open_tag(content: Seq<char>, child: Seq<char>, res: Seq<char>) -> bool {
    let b = encode_utf8(content);
    ||| res == content
    ||| exists|s: int, k: int|
        #[trigger] open_tag_at(b, s, k) && encode_utf8(res) == b.take(k) + encode_utf8(child) + b.skip(k)
}

/// `res` is `content`, or `content` with `child` put in right before one of its end tags.
pub open spec fn inserts_before_close_tag(content: Seq<char>, child: Seq<char>, res: Seq<char>) -> bool {
    let b = encode_utf8(content);
    ||| res == content
    ||| exists|k: int, e: int|
        #[trigger] close_tag_at(b, k, e) && encode_utf8(res) == b.take(k) + encode_utf8(child) + b.skip(k)
}

/// `b` is an element with no content: a start tag from `<` and a letter up to the `>` at `q`,
/// not closing itself, whose name runs from 1 to `n` and is neither a raw text element nor a
/// void element, then right after it an end tag from `</` and a letter up to the `>` at `q2`.
pub open spec fn simple_element(b: Seq<u8>, q: int, n: int, q2: int) -> bool {
    &&& b.len() > 1 && b[0] == 60u8 && is_letter(b[1])
    &&& plain_up_to(b, 2, q)
    &&& b[q - 1] != 47u8
    &&& name_ends_at(b, 2, n)
    &&& !is_raw_text_name(b.subrange(1, n))
    &&& !is_void_element(spec_to_lowercase(decode_utf8(b.subrange(1, n))))
    &&& q + 3 < b.len() && b[q + 1] == 60u8 && b[q + 2] == 47u8 && is_letter(b[q + 3])
    &&& plain_up_to(b, q + 4, q2)
}

/// The elements that have no content and no end tag.
pub open spec fn is_void_element(name: Seq<char>) -> bool {
    ||| name == seq!['a', 'r', 'e', 'a']
    ||| name == seq!['b', 'a', 's', 'e']
    ||| name == seq!['b', 'r']
    ||| name == seq!['c', 'o', 'l']
    ||| name == seq!['e', 'm', 'b', 'e', 'd']
    ||| name == seq!['h', 'r']
    ||| name == seq!['i', 'm', 'g']
    ||| name == seq!['i', 'n', 'p', 'u', 't']
    ||| name == seq!['l', 'i', 'n', 'k']
    ||| name == seq!['m', 'e', 't', 'a']
    ||| name == seq!['p', 'a', 'r', 'a', 'm']
    ||| name == seq!['s', 'o', 'u', 'r', 'c', 'e']
    ||| name == seq!['t', 'r', 'a', 'c', 'k']
    ||| name == seq!['w', 'b', 'r']
}

/// Whether `name` is a void element.
pub fn void_element(name: &str) -> (res: bool)
    ensures
        res == is_void_element(name@),
{
    proof {
        reveal_strlit("area");
        reveal_strlit("base");
        reveal_strlit("br");
        reveal_strlit("col");
        reveal_strlit("embed");
        reveal_strlit("hr");
        reveal_strlit("img");
        reveal_strlit("input");
        reveal_strlit("link");
        reveal_strlit("meta");
        reveal_strlit("param");
        reveal_strlit("source");
        reveal_strlit("track");
        reveal_strlit("wbr");
        assert("area"@ =~= seq!['a', 'r', 'e', 'a']);
        assert("base"@ =~= seq!['b', 'a', 's', 'e']);
        assert("br"@ =~= seq!['b', 'r']);
        assert("col"@ =~= seq!['c', 'o', 'l']);
        assert("embed"@ =~= seq!['e', 'm', 'b', 'e', 'd']);
        assert("hr"@ =~= seq!['h', 'r']);
        assert("img"@ =~= seq!['i', 'm', 'g']);
        assert("input"@ =~= seq!['i', 'n', 'p', 'u', 't']);
        assert("link"@ =~= seq!['l', 'i', 'n', 'k']);
        assert("meta"@ =~= seq!['m', 'e', 't', 'a']);
        assert("param"@ =~= seq!['p', 'a', 'r', 'a', 'm']);
        assert("source"@ =~= seq!['s', 'o', 'u', 'r', 'c', 'e']);
        assert("track"@ =~= seq!['t', 'r', 'a', 'c', 'k']);
        assert("wbr"@ =~= seq!['w', 'b', 'r']);
    }
    str_eq(name, "area") || str_eq(name, "base") || str_eq(name, "br") || str_eq(name, "col") || str_eq(
        name,
        "embed",
    ) || str_eq(name, "hr") || str_eq(name, "img") || str_eq(name, "input") || str_eq(name, "link")
        || str_eq(name, "meta") || str_eq(name, "param") || str_eq(name, "source") || str_eq(name, "track")
        || str_eq(name, "wbr")
}

/// From `i` to `k`, `b` holds only text and tags that close themselves (`<name .../>`, with
/// no quote) and are not raw text elements: content that opens no element.
pub open spec fn flat_content(b: Seq<u8>, i: int, k: int) -> bool
    decreases k - i,
{
    if i >= k {
        i == k
    } else if !markup_at(b, i) {
        flat_content(b, i + 1, k)
    } else {
        &&& is_letter(b[i + 1])
        &&& plain_rest(b, i + 2)
        &&& i < close_of(b, i + 2) < k
        &&& b[close_of(b, i + 2) - 1] == 47u8
        &&& exists|n: int| #[trigger] name_ends_at(b, i + 2, n) && !is_raw_text_name(b.subrange(i + 1, n))
        &&& flat_content(b, close_of(b, i + 2) + 1, k)
    }
}

/// `b` is an element whose start tag runs from `<` and a letter up to the `>` at `q`, not
/// closing itself, with a name from 1 to `n` that is neither a raw text element nor a void
/// element; its content up to `k` opens no element; an end tag runs from `k` to the `>` at `q2`.
pub open spec fn open_element(b: Seq<u8>, q: int, n: int, k: int, q2: int) -> bool {
    &&& b.len() > 1 && b[0] == 60u8 && is_letter(b[1])
    &&& plain_up_to(b, 2, q)
    &&& b[q - 1] != 47u8
    &&& name_ends_at(b, 2, n)
    &&& !is_raw_text_name(b.subrange(1, n))
    &&& !is_void_element(spec_to_lowercase(decode_utf8(b.subrange(1, n))))
    &&& q < k && flat_content(b, q + 1, k)
    &&& k + 2 < b.len() && b[k] == 60u8 && b[k + 1] == 47u8 && is_letter(b[k + 2])
    &&& plain_up_to(b, k + 3, q2)
}

/// Text in flat content is passed over up to the next markup.
proof fn lemma_flat_skip_text(b: Seq<u8>, p: int, e: int, k: int)
    requires
        flat_content(b, p, k),
        p <= e <= k,
        forall|j: int| p <= j < e ==> !#[trigger] markup_at(b, j),
    ensures
        flat_content(b, e, k),
    decreases e - p,
{
    if p < e {
        assert(!markup_at(b, p));
        lemma_flat_skip_text(b, p + 1, e, k);
    }
}

/// Flat content reaches at most one end tag.
proof fn lemma_flat_unique(b: Seq<u8>, i: int, k1: int, k2: int)
    requires
        0 <= i,
        flat_content(b, i, k1),
        flat_content(b, i, k2),
        k1 + 2 < b.len() && b[k1] == 60u8 && b[k1 + 1] == 47u8,
        k2 + 2 < b.len() && b[k2] == 60u8 && b[k2 + 1] == 47u8,
    ensures
        k1 == k2,
    decreases k1 - i,
{
    if i >= k1 || i >= k2 {
        if i == k1 && k2 > i {
            assert(markup_at(b, i));
        }
        if i == k2 && k1 > i {
            assert(markup_at(b, i));
        }
    } else if !markup_at(b, i) {
        lemma_flat_unique(b, i + 1, k1, k2);
    } else {
        lemma_flat_unique(b, close_of(b, i + 2) + 1, k1, k2);
    }
}

/// The bytes from an ASCII byte to another of valid UTF-8 are valid UTF-8.
proof fn lemma_valid_span(b: Seq<u8>, p: int, c: int)
    requires
        valid_utf8(b),
        0 <= p <= c < b.len(),
        b[p] < 0x80,
        b[c] < 0x80,
    ensures
        valid_utf8(b.subrange(p, c + 1)),
{
    lemma_split_after_ascii(b, c);
    let t = b.subrange(0, c + 1);
    is_char_boundary_iff_not_is_continuation_byte(t, p);
    valid_utf8_split(t, p);
    assert(t.subrange(p, t.len() as int) =~= b.subrange(p, c + 1));
}

/// An element with no content is an element whose content opens no element.
proof fn lemma_simple_is_open(b: Seq<u8>, q: int, n: int, q2: int)
    requires
        simple_element(b, q, n, q2),
    ensures
        open_element(b, q, n, q + 1, q2),
{
}

/// `content` with `child` put in before the end tag that closes the first element, or
/// `content` itself where the HTML ends first or cannot be read. Where the first element
/// holds only text and tags that close themselves, `child` goes right before its end tag.
pub fn append_child(content: String, child: String) -> (res: String)
    ensures
        inserts_before_close_tag(content@, child@, res@),
        forall|q: int, n: int, q2: int|
            #![trigger plain_up_to(encode_utf8(content@), 2, q), name_ends_at(encode_utf8(content@), 2, n), plain_up_to(encode_utf8(content@), q + 4, q2)]
            simple_element(encode_utf8(content@), q, n, q2) ==> encode_utf8(res@) == encode_utf8(content@).take(
                q + 1,
            ) + encode_utf8(child@) + encode_utf8(content@).skip(q + 1),
        forall|q: int, n: int, k: int, q2: int|
            #[trigger] open_element(encode_utf8(content@), q, n, k, q2) ==> encode_utf8(res@) == encode_utf8(
                content@,
            ).take(k) + encode_utf8(child@) + encode_utf8(content@).skip(k),
{
    let bytes = content.as_str().as_bytes_vec();
    let ghost b = bytes@;
    let ghost scen = exists|q: int, n: int, k: int, q2: int| open_element(b, q, n, k, q2);
    let ghost (q0, n0, k0, q20) = choose|q: int, n: int, k: int, q2: int| open_element(b, q, n, k, q2);
    proof {
        encode_utf8_valid_utf8(content@);
        assert forall|q: int, n: int, k: int, q2: int| #[trigger]
            open_element(b, q, n, k, q2) implies scen && q == q0 && n == n0 && k == k0 && q2 == q20 by {
            assert(open_element(b, q0, n0, k0, q20));
            lemma_close_of(b, 2, 2, q);
            lemma_close_of(b, 2, 2, q0);
            lemma_name_end_unique(b, 2, n, n0);
            lemma_flat_unique(b, q + 1, k, k0);
            lemma_close_of(b, k + 3, k + 3, q2);
            lemma_close_of(b, k + 3, k + 3, q20);
        }
        assert forall|q: int, n: int, q2: int|
            #![trigger plain_up_to(b, 2, q), name_ends_at(b, 2, n), plain_up_to(b, q + 4, q2)]
            simple_element(b, q, n, q2) implies open_element(b, q, n, q + 1, q2) by {
            lemma_simple_is_open(b, q, n, q2);
        }
        if scen {
            assert(open_element(b, q0, n0, k0, q20));
            lemma_valid_span(b, 0, q0);
            lemma_split_after_ascii(b, q20);
            assert(b.skip(q20 + 1) =~= b.subrange(q20 + 1, b.len() as int));
            lemma_valid_between_ascii(b, 0, n0);
        }
    }
    let input_len = bytes.len();
    let mut tokenizer = Tokenizer::new(bytes);
    let mut output = String::new();
    let mut level: i128 = 0;
    assert(b.take(0) =~= encode_utf8(output@));
    loop
        invariant
            tokenizer.wf(),
            tokenizer.spec_buffer() == b,
            b == encode_utf8(content@),
            valid_utf8(b),
            b.len() == input_len,
            encode_utf8(output@) == b.take(tokenizer.spec_raw_end()),
            -tokenizer.spec_raw_end() <= level <= tokenizer.spec_raw_end(),
            forall|q: int, n: int, k: int, q2: int| #[trigger]
                open_element(b, q, n, k, q2) ==> scen && q == q0 && n == n0 && k == k0 && q2 == q20,
            forall|q: int, n: int, q2: int|
                #![trigger plain_up_to(b, 2, q), name_ends_at(b, 2, n), plain_up_to(b, q + 4, q2)]
                simple_element(b, q, n, q2) ==> open_element(b, q, n, q + 1, q2),
            scen ==> open_element(b, q0, n0, k0, q20) && valid_utf8(b.subrange(0, q0 + 1)) && valid_utf8(
                b.skip(q20 + 1),
            ) && valid_utf8(b.subrange(1, n0)),
            scen ==> tokenizer.spec_err() is None && tokenizer.spec_max_buffer() == 0
                && tokenizer.spec_raw_tag_name().len() == 0 && ((tokenizer.spec_raw_end() == 0 && level == 0) || (
            level == 1 && q0 + 1 <= tokenizer.spec_raw_end() <= k0 && flat_content(b, tokenizer.spec_raw_end(), k0)
                && (b[tokenizer.spec_raw_end() - 1] == 62u8 || markup_at(b, tokenizer.spec_raw_end())))),
        decreases b.len() - tokenizer.spec_raw_end(),
    {
        proof {
            tokenizer.lemma_wf_bounds();
        }
        let ghost t0 = tokenizer;
        let ghost p = t0.spec_raw_end();
        proof {
            if scen {
                if p == 0 {
                    assert(plain_up_to(b, p + 2, q0));
                    assert(name_ends_at(b, p + 2, n0));
                } else if p == k0 {
                    assert(plain_up_to(b, p + 3, q20));
                } else if markup_at(b, p) {
                    lemma_close_of_rest(b, p + 2);
                    let n = choose|n: int| #[trigger] name_ends_at(b, p + 2, n) && !is_raw_text_name(b.subrange(p + 1, n));
                    assert(plain_up_to(b, p + 2, close_of(b, p + 2)));
                    assert(name_ends_at(b, p + 2, n));
                } else {
                    assert(markup_at(b, k0));
                }
            }
        }
        let token_type = tokenizer.next();
        proof {
            tokenizer.lemma_wf_bounds();
            if scen && p > 0 && p < k0 {
                if markup_at(b, p) {
                    lemma_close_of_rest(b, p + 2);
                    let c = close_of(b, p + 2);
                    assert(tokenizer.spec_raw_end() == c + 1);
                    assert(token_type == TokenType::SelfClosingTagToken);
                    lemma_valid_span(b, p, c);
                } else {
                    let e = tokenizer.spec_raw_end();
                    assert(token_type == TokenType::TextToken);
                    if e > k0 {
                        assert(!markup_at(b, k0));
                    }
                    assert(tokenizer.spec_err() is None);
                    assert(markup_at(b, e));
                    lemma_flat_skip_text(b, p, e, k0);
                    lemma_valid_between_ascii(b, p - 1, e);
                }
            }
            if scen && p == k0 {
                lemma_valid_span(b, k0, q20);
            }
        }
        if token_type == TokenType::ErrorToken {
            return content;
        }
        if token_type == TokenType::StartTagToken {
            level = level + 1;
            match tokenizer.tag_name() {
                Ok((Some(name), _)) => {
                    if void_element(name.as_str()) {
                        level = level - 1;
                    }
                },
                _ => return content,
            }
        }
        let ghost start = tokenizer.spec_raw_start();
        let ghost end = tokenizer.spec_raw_end();
        proof {
            tokenizer.lemma_raw_bytes();
        }
        let raw = match tokenizer.raw() {
            Ok(r) => r,
            Err(_) => return content,
        };
        proof {
            decode_utf8_encode_utf8(tokenizer.spec_raw_bytes());
            tokenizer.lemma_raw_bytes();
        }
        if token_type == TokenType::EndTagToken {
            level = level - 1;
            if level == 0 {
                let rest = match tokenizer.buffered() {
                    Ok(r) => r,
                    Err(_) => return content,
                };
                let ghost before = output@;
                output.append(child.as_str());
                output.append(raw.as_str());
                output.append(rest.as_str());
                proof {
                    decode_utf8_encode_utf8(b.skip(end));
                    lemma_encode_concat(before, child@);
                    lemma_encode_concat(before + child@, raw@);
                    lemma_encode_concat(before + child@ + raw@, rest@);
                    assert(tokenizer.spec_raw_bytes() == b.subrange(start, end));
                    assert(b.skip(start) =~= b.subrange(start, end) + b.skip(end));
                    assert(encode_utf8(output@) =~= b.take(start) + encode_utf8(child@) + b.skip(start));
                    assert(close_tag_at(b, start, end));
                }
                return output;
            }
        }
        let ghost before = output@;
        output.append(raw.as_str());
        proof {
            lemma_encode_concat(before, raw@);
            assert(b.take(end) =~= b.take(start) + b.subrange(start, end));
        }
    }
}

/// `content` with `child` put in right after its first start tag, or `content` itself
/// where there is none or the HTML cannot be read.
pub fn prepend_child(content: String, child: String) -> (res: String)
    ensures
        inserts_after_open_tag(content@, child@, res@),
        forall|q: int|
            #![trigger plain_up_to(encode_utf8(content@), 2, q)]
            encode_utf8(content@)[0] == 60u8 && is_letter(encode_utf8(content@)[1]) && plain_up_to(
                encode_utf8(content@),
                2,
                q,
            ) && encode_utf8(content@)[q - 1] != 47u8 ==> encode_utf8(res@) == encode_utf8(content@).take(q + 1)
                + encode_utf8(child@) + encode_utf8(content@).skip(q + 1),
{
    let bytes = content.as_str().as_bytes_vec();
    let ghost b = bytes@;
    let ghost q0 = close_of(b, 2);
    let ghost opens = b.len() >= 2 && b[0] == 60u8 && is_letter(b[1]) && plain_rest(b, 2) && b[q0 - 1] != 47u8;
    proof {
        encode_utf8_valid_utf8(content@);
        if opens {
            lemma_close_of_rest(b, 2);
        }
        assert forall|q: int|
            #[trigger] plain_up_to(b, 2, q) && b[0] == 60u8 && is_letter(b[1]) && b[q - 1] != 47u8 implies opens
            && q == q0 by {
            lemma_close_of(b, 2, 2, q);
        }
    }
    let mut tokenizer = Tokenizer::new(bytes);
    let mut output = String::new();
    assert(b.take(0) =~= encode_utf8(output@));
    loop
        invariant
            tokenizer.wf(),
            tokenizer.spec_buffer() == b,
            b == encode_utf8(content@),
            encode_utf8(output@) == b.take(tokenizer.spec_raw_end()),
            valid_utf8(b),
            opens ==> plain_up_to(b, 2, q0) && b[q0 - 1] != 47u8 && b[0] == 60u8 && is_letter(b[1]),
            forall|q: int|
                #[trigger] plain_up_to(b, 2, q) && b[0] == 60u8 && is_letter(b[1]) && b[q - 1] != 47u8 ==> opens
                    && q == q0,
            opens ==> tokenizer.spec_raw_end() == 0 && tokenizer.spec_err() is None && tokenizer.spec_max_buffer()
                == 0 && tokenizer.spec_raw_tag_name().len() == 0,
        decreases b.len() - tokenizer.spec_raw_end(),
    {
        proof {
            tokenizer.lemma_wf_bounds();
        }
        let ghost t0 = tokenizer;
        let token_type = tokenizer.next();
        proof {
            tokenizer.lemma_wf_bounds();
            if opens {
                assert(plain_up_to(t0.spec_buffer(), t0.spec_raw_end() + 2, q0));
            }
        }
        if token_type == TokenType::ErrorToken {
            return content;
        }
        let ghost start = tokenizer.spec_raw_start();
        let ghost end = tokenizer.spec_raw_end();
        proof {
            tokenizer.lemma_raw_bytes();
            if opens {
                assert(token_type == TokenType::StartTagToken);
                lemma_split_after_ascii(b, q0);
                assert(b.skip(q0 + 1) =~= b.subrange(q0 + 1, b.len() as int));
            }
        }
        let raw = match tokenizer.raw() {
            Ok(r) => r,
            Err(_) => return content,
        };
        proof {
            decode_utf8_encode_utf8(tokenizer.spec_raw_bytes());
            tokenizer.lemma_raw_bytes();
        }
        let ghost before = output@;
        output.append(raw.as_str());
        proof {
            lemma_encode_concat(before, raw@);
            assert(b.take(end) =~= b.take(start) + b.subrange(start, end));
        }
        if token_type == TokenType::StartTagToken {
            let rest = match tokenizer.buffered() {
                Ok(r) => r,
                Err(_) => return content,
            };
            let ghost mid = output@;
            output.append(child.as_str());
            output.append(rest.as_str());
            proof {
                decode_utf8_encode_utf8(b.skip(end));
                lemma_encode_concat(mid, child@);
                lemma_encode_concat(mid + child@, rest@);
                assert(encode_utf8(output@) =~= b.take(end) + encode_utf8(child@) + b.skip(end));
                assert(open_tag_at(b, start, end));
            }
            return output;
        }
    }
}

/// A body action: it is told when the document enters and leaves the elements of its path.
pub trait BodyAction {
    /// The action's state is usable.
    spec fn inv(&self) -> bool;

    /// The path of elements the action walks.
    spec fn spec_path(&self) -> Seq<String>;

    /// The document entered the element the action waits for, with `data` so far: the next
    /// element to wait for, the element to wait to leave, whether to buffer, and the data.
    fn enter(&mut self, data: String) -> (res: (Option<String>, Option<String>, bool, String))
        requires
            old(self).inv(),
        ensures
            final(self).inv(),
    ;

    /// The document left the element the action waits to leave, with `data` buffered: the
    /// next element to wait for, the next one to wait to leave, and the data to write.
    fn leave(&mut self, data: String) -> (res: (Option<String>, Option<String>, String))
        requires
            old(self).inv(),
        ensures
            final(self).inv(),
    ;

    /// The first element of the path.
    fn first(&self) -> (res: String)
        requires
            self.inv(),
        ensures
            res == self.spec_path()[0],
    ;
}

/// One of the body actions.
#[derive(Debug)]
pub enum BodyActionItem {
    Append(BodyAppend),
    Prepend(BodyPrepend),
    Replace(BodyReplace),
}

/// The action that a body filter describes: `None` without a path or with an unknown action.
pub fn create_body_action(filter: &BodyFilter) -> (res: Option<BodyActionItem>)
    ensures
        filter.element_tree@.len() == 0 ==> res is None,
        filter.element_tree@.len() > 0 ==> match res {
            Some(BodyActionItem::Append(a)) => filter.action@ == seq!['a', 'p', 'p', 'e', 'n', 'd', '_', 'c', 'h', 'i', 'l', 'd']
                && a.made_of(filter.element_tree@, filter.x_path_matcher, filter.value@),
            Some(BodyActionItem::Prepend(a)) => filter.action@ == seq!['p', 'r', 'e', 'p', 'e', 'n', 'd', '_', 'c', 'h', 'i', 'l', 'd']
                && a.made_of(filter.element_tree@, filter.x_path_matcher, filter.value@),
            Some(BodyActionItem::Replace(a)) => filter.action@ == seq!['r', 'e', 'p', 'l', 'a', 'c', 'e']
                && a.made_of(filter.element_tree@, filter.x_path_matcher, filter.value@),
            None => filter.action@ != seq!['a', 'p', 'p', 'e', 'n', 'd', '_', 'c', 'h', 'i', 'l', 'd']
                && filter.action@ != seq!['p', 'r', 'e', 'p', 'e', 'n', 'd', '_', 'c', 'h', 'i', 'l', 'd']
                && filter.action@ != seq!['r', 'e', 'p', 'l', 'a', 'c', 'e'],
        },
        res matches Some(a) ==> a.inv(),
{
    if filter.element_tree.len() == 0 {
        return None;
    }
    proof {
        reveal_strlit("append_child");
        reveal_strlit("prepend_child");
        reveal_strlit("replace");
        assert("append_child"@ =~= seq!['a', 'p', 'p', 'e', 'n', 'd', '_', 'c', 'h', 'i', 'l', 'd']);
        assert("prepend_child"@ =~= seq!['p', 'r', 'e', 'p', 'e', 'n', 'd', '_', 'c', 'h', 'i', 'l', 'd']);
        assert("replace"@ =~= seq!['r', 'e', 'p', 'l', 'a', 'c', 'e']);
    }
    let action = filter.action.as_str();
    if str_eq(action, "append_child") {
        return Some(
            BodyActionItem::Append(
                BodyAppend::new(
                    clone_strings(&filter.element_tree),
                    crate::filter::header_action::clone_option(&filter.x_path_matcher),
                    filter.value.clone(),
                ),
            ),
        );
    }
    if str_eq(action, "prepend_child") {
        return Some(
            BodyActionItem::Prepend(
                BodyPrepend::new(
                    clone_strings(&filter.element_tree),
                    crate::filter::header_action::clone_option(&filter.x_path_matcher),
                    filter.value.clone(),
                ),
            ),
        );
    }
    if str_eq(action, "replace") {
        return Some(
            BodyActionItem::Replace(
                BodyReplace::new(
                    clone_strings(&filter.element_tree),
                    crate::filter::header_action::clone_option(&filter.x_path_matcher),
                    filter.value.clone(),
                ),
            ),
        );
    }
    None
}

impl BodyActionItem {
    pub open spec fn inv(&self) -> bool {
        match self {
            BodyActionItem::Append(a) => a.inv(),
            BodyActionItem::Prepend(a) => a.inv(),
            BodyActionItem::Replace(a) => a.inv(),
        }
    }
}

/// A copy of a list of strings.
pub fn clone_strings(v: &Vec<String>) -> (res: Vec<String>)
    ensures
        res@ == v@,
{
    let mut res: Vec<String> = Vec::new();
    let mut i: usize = 0;
    while i < v.len()
        invariant
            i <= v@.len(),
            res@ == v@.take(i as int),
        decreases v@.len() - i,
    {
        res.push(v[i].clone());
        i = i + 1;
        assert(res@ =~= v@.take(i as int));
    }
    assert(v@.take(i as int) =~= v@);
    res
}

} // verus!
