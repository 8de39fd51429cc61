use vstd::prelude::*;
use vstd::utf8::*;

use crate::text::{copy_range, push_char, spec_decode, spec_to_lowercase, str_eq, string_from_utf8, to_lowercase};

pub mod error;
pub mod token;

pub use error::HtmlParseError;

verus! {

#[derive(Debug, Clone, Copy, PartialEq, Eq, Structural)]
pub enum TokenType {
    NoneToken,
    ErrorToken,
    TextToken,
    StartTagToken,
    EndTagToken,
    SelfClosingTagToken,
    CommentToken,
    DoctypeToken,
}

/// Declares std's I/O error, which a reading error may carry.
#[verifier::external_type_specification]
#[verifier::external_body]
pub struct ExIoError(std::io::Error);

pub struct Error {
    pub kind: ErrorKind,
    pub read_error: Option<std::io::Error>,
}

#[derive(Debug, Clone, Copy, PartialEq, Eq, Structural)]
pub enum ErrorKind {
    ReadError,
    MaxBufferError,
    EOFError,
}

#[derive(Debug, Clone)]
pub struct Attribute {
    pub namespace: String,
    pub key: Option<String>,
    pub value: Option<String>,
}

#[derive(Debug, Clone)]
pub struct Token {
    pub token_type: TokenType,
    pub data: Option<String>,
    pub attrs: Vec<Attribute>,
}

/// A range of positions in the tokenizer's buffer.
#[derive(Debug, Clone, Copy)]
struct Span {
    start: usize,
    end: usize,
}

/// The elements whose content is raw text, which the tokenizer reads up to their end tag.
#[derive(Clone, Copy, PartialEq, Eq, Structural, Debug)]
enum RawTag {
    NoRaw,
    Iframe,
    Noembed,
    Noframes,
    Noscript,
    Plaintext,
    Script,
    Style,
    Title,
    Textarea,
    Xmp,
}

/// The elements whose content the tokenizer reads as raw text.
pub open spec fn is_raw_text_element(name: Seq<char>) -> bool {
    name == seq!['i', 'f', 'r', 'a', 'm', 'e']
    || name == seq!['n', 'o', 'e', 'm', 'b', 'e', 'd']
    || name == seq!['n', 'o', 'f', 'r', 'a', 'm', 'e', 's']
    || name == seq!['n', 'o', 's', 'c', 'r', 'i', 'p', 't']
    || name == seq!['p', 'l', 'a', 'i', 'n', 't', 'e', 'x', 't']
    || name == seq!['s', 'c', 'r', 'i', 'p', 't']
    || name == seq!['s', 't', 'y', 'l', 'e']
    || name == seq!['t', 'i', 't', 'l', 'e']
    || name == seq!['t', 'e', 'x', 't', 'a', 'r', 'e', 'a']
    || name == seq!['x', 'm', 'p']
}

/// The name of a raw text element, as bytes.
spec fn raw_tag_bytes(t: RawTag) -> Seq<u8> {
    match t {
        RawTag::NoRaw => seq![],
        RawTag::Iframe => seq![105u8, 102u8, 114u8, 97u8, 109u8, 101u8],
        RawTag::Noembed => seq![110u8, 111u8, 101u8, 109u8, 98u8, 101u8, 100u8],
        RawTag::Noframes => seq![110u8, 111u8, 102u8, 114u8, 97u8, 109u8, 101u8, 115u8],
        RawTag::Noscript => seq![110u8, 111u8, 115u8, 99u8, 114u8, 105u8, 112u8, 116u8],
        RawTag::Plaintext => seq![112u8, 108u8, 97u8, 105u8, 110u8, 116u8, 101u8, 120u8, 116u8],
        RawTag::Script => seq![115u8, 99u8, 114u8, 105u8, 112u8, 116u8],
        RawTag::Style => seq![115u8, 116u8, 121u8, 108u8, 101u8],
        RawTag::Title => seq![116u8, 105u8, 116u8, 108u8, 101u8],
        RawTag::Textarea => seq![116u8, 101u8, 120u8, 116u8, 97u8, 114u8, 101u8, 97u8],
        RawTag::Xmp => seq![120u8, 109u8, 112u8],
    }
}

/// The name of a raw text element, as characters.
spec fn raw_tag_chars(t: RawTag) -> Seq<char> {
    match t {
        RawTag::NoRaw => seq![],
        RawTag::Iframe => seq!['i', 'f', 'r', 'a', 'm', 'e'],
        RawTag::Noembed => seq!['n', 'o', 'e', 'm', 'b', 'e', 'd'],
        RawTag::Noframes => seq!['n', 'o', 'f', 'r', 'a', 'm', 'e', 's'],
        RawTag::Noscript => seq!['n', 'o', 's', 'c', 'r', 'i', 'p', 't'],
        RawTag::Plaintext => seq!['p', 'l', 'a', 'i', 'n', 't', 'e', 'x', 't'],
        RawTag::Script => seq!['s', 'c', 'r', 'i', 'p', 't'],
        RawTag::Style => seq!['s', 't', 'y', 'l', 'e'],
        RawTag::Title => seq!['t', 'i', 't', 'l', 'e'],
        RawTag::Textarea => seq!['t', 'e', 'x', 't', 'a', 'r', 'e', 'a'],
        RawTag::Xmp => seq!['x', 'm', 'p'],
    }
}

/// Only `plaintext` has the name `plaintext`.
proof fn lemma_plaintext_name(t: RawTag)
    requires
        raw_tag_chars(t) == seq!['p', 'l', 'a', 'i', 'n', 't', 'e', 'x', 't'],
    ensures
        t == RawTag::Plaintext,
{
    assert(raw_tag_chars(t).len() == 9);
}

/// `[CDATA[` stands at `p` in `b`.
pub open spec fn cdata_at(b: Seq<u8>, p: int) -> bool {
    forall|j: int| 0 <= j < 7 ==> b[p + j] == #[trigger] cdata_bytes()[j]
}

/// Length of the name of a raw text element.
fn raw_tag_len(t: RawTag) -> (res: usize)
    ensures
        res == raw_tag_bytes(t).len(),
{
    match t {
        RawTag::NoRaw => 0,
        RawTag::Iframe => 6,
        RawTag::Noembed => 7,
        RawTag::Noframes => 8,
        RawTag::Noscript => 8,
        RawTag::Plaintext => 9,
        RawTag::Script => 6,
        RawTag::Style => 5,
        RawTag::Title => 5,
        RawTag::Textarea => 8,
        RawTag::Xmp => 3,
    }
}

/// Byte `i` of the name of a raw text element.
fn raw_tag_byte(t: RawTag, i: usize) -> (res: u8)
    requires
        i < raw_tag_bytes(t).len(),
    ensures
        res == raw_tag_bytes(t)[i as int],
        97 <= res <= 122,
{
    match t {
        RawTag::NoRaw => 0,
        RawTag::Iframe => if i == 0 { 105 } else if i == 1 { 102 } else if i == 2 { 114 } else if i == 3 { 97 } else if i == 4 { 109 } else { 101 },
        RawTag::Noembed => if i == 0 { 110 } else if i == 1 { 111 } else if i == 2 { 101 } else if i == 3 { 109 } else if i == 4 { 98 } else if i == 5 { 101 } else { 100 },
        RawTag::Noframes => if i == 0 { 110 } else if i == 1 { 111 } else if i == 2 { 102 } else if i == 3 { 114 } else if i == 4 { 97 } else if i == 5 { 109 } else if i == 6 { 101 } else { 115 },
        RawTag::Noscript => if i == 0 { 110 } else if i == 1 { 111 } else if i == 2 { 115 } else if i == 3 { 99 } else if i == 4 { 114 } else if i == 5 { 105 } else if i == 6 { 112 } else { 116 },
        RawTag::Plaintext => if i == 0 { 112 } else if i == 1 { 108 } else if i == 2 { 97 } else if i == 3 { 105 } else if i == 4 { 110 } else if i == 5 { 116 } else if i == 6 { 101 } else if i == 7 { 120 } else { 116 },
        RawTag::Script => if i == 0 { 115 } else if i == 1 { 99 } else if i == 2 { 114 } else if i == 3 { 105 } else if i == 4 { 112 } else { 116 },
        RawTag::Style => if i == 0 { 115 } else if i == 1 { 116 } else if i == 2 { 121 } else if i == 3 { 108 } else { 101 },
        RawTag::Title => if i == 0 { 116 } else if i == 1 { 105 } else if i == 2 { 116 } else if i == 3 { 108 } else { 101 },
        RawTag::Textarea => if i == 0 { 116 } else if i == 1 { 101 } else if i == 2 { 120 } else if i == 3 { 116 } else if i == 4 { 97 } else if i == 5 { 114 } else if i == 6 { 101 } else { 97 },
        RawTag::Xmp => if i == 0 { 120 } else if i == 1 { 109 } else { 112 },
    }
}

/// The raw text element that a lowercase name designates, if any.
spec fn raw_tag_of_name(name: Seq<char>) -> RawTag {
    if name == raw_tag_chars(RawTag::Iframe) { RawTag::Iframe }
    else if name == raw_tag_chars(RawTag::Noembed) { RawTag::Noembed }
    else if name == raw_tag_chars(RawTag::Noframes) { RawTag::Noframes }
    else if name == raw_tag_chars(RawTag::Noscript) { RawTag::Noscript }
    else if name == raw_tag_chars(RawTag::Plaintext) { RawTag::Plaintext }
    else if name == raw_tag_chars(RawTag::Script) { RawTag::Script }
    else if name == raw_tag_chars(RawTag::Style) { RawTag::Style }
    else if name == raw_tag_chars(RawTag::Title) { RawTag::Title }
    else if name == raw_tag_chars(RawTag::Textarea) { RawTag::Textarea }
    else if name == raw_tag_chars(RawTag::Xmp) { RawTag::Xmp }
    else { RawTag::NoRaw }
}

/// Finds the raw text element named by `name`.
fn raw_tag_from_name(name: &str) -> (res: RawTag)
    ensures
        res == raw_tag_of_name(name@),
{
    if str_eq(name, "iframe") {
        proof { reveal_strlit("iframe"); assert("iframe"@ =~= raw_tag_chars(RawTag::Iframe)); }
        RawTag::Iframe
    } else if str_eq(name, "noembed") {
        proof { reveal_strlit("noembed"); assert("noembed"@ =~= raw_tag_chars(RawTag::Noembed)); }
        RawTag::Noembed
    } else if str_eq(name, "noframes") {
        proof { reveal_strlit("noframes"); assert("noframes"@ =~= raw_tag_chars(RawTag::Noframes)); }
        RawTag::Noframes
    } else if str_eq(name, "noscript") {
        proof { reveal_strlit("noscript"); assert("noscript"@ =~= raw_tag_chars(RawTag::Noscript)); }
        RawTag::Noscript
    } else if str_eq(name, "plaintext") {
        proof { reveal_strlit("plaintext"); assert("plaintext"@ =~= raw_tag_chars(RawTag::Plaintext)); }
        RawTag::Plaintext
    } else if str_eq(name, "script") {
        proof { reveal_strlit("script"); assert("script"@ =~= raw_tag_chars(RawTag::Script)); }
        RawTag::Script
    } else if str_eq(name, "style") {
        proof { reveal_strlit("style"); assert("style"@ =~= raw_tag_chars(RawTag::Style)); }
        RawTag::Style
    } else if str_eq(name, "title") {
        proof { reveal_strlit("title"); assert("title"@ =~= raw_tag_chars(RawTag::Title)); }
        RawTag::Title
    } else if str_eq(name, "textarea") {
        proof { reveal_strlit("textarea"); assert("textarea"@ =~= raw_tag_chars(RawTag::Textarea)); }
        RawTag::Textarea
    } else if str_eq(name, "xmp") {
        proof { reveal_strlit("xmp"); assert("xmp"@ =~= raw_tag_chars(RawTag::Xmp)); }
        RawTag::Xmp
    } else {
        proof {
            reveal_strlit("iframe"); assert("iframe"@ =~= raw_tag_chars(RawTag::Iframe));
            reveal_strlit("noembed"); assert("noembed"@ =~= raw_tag_chars(RawTag::Noembed));
            reveal_strlit("noframes"); assert("noframes"@ =~= raw_tag_chars(RawTag::Noframes));
            reveal_strlit("noscript"); assert("noscript"@ =~= raw_tag_chars(RawTag::Noscript));
            reveal_strlit("plaintext"); assert("plaintext"@ =~= raw_tag_chars(RawTag::Plaintext));
            reveal_strlit("script"); assert("script"@ =~= raw_tag_chars(RawTag::Script));
            reveal_strlit("style"); assert("style"@ =~= raw_tag_chars(RawTag::Style));
            reveal_strlit("title"); assert("title"@ =~= raw_tag_chars(RawTag::Title));
            reveal_strlit("textarea"); assert("textarea"@ =~= raw_tag_chars(RawTag::Textarea));
            reveal_strlit("xmp"); assert("xmp"@ =~= raw_tag_chars(RawTag::Xmp));
        }
        RawTag::NoRaw
    }
}

/// A byte that HTML counts as white space.
pub open spec fn is_ws(b: u8) -> bool {
    b == 32u8 || b == 10u8 || b == 13u8 || b == 9u8 || b == 12u8
}

/// An ASCII letter.
pub open spec fn is_letter(b: u8) -> bool {
    (97u8 <= b && b <= 122u8) || (65u8 <= b && b <= 90u8)
}

fn is_white_space(b: u8) -> (res: bool)
    ensures
        res == is_ws(b),
{
    b == 32u8 || b == 10u8 || b == 13u8 || b == 9u8 || b == 12u8
}

fn is_ascii_letter(b: u8) -> (res: bool)
    ensures
        res == is_letter(b),
{
    (97u8 <= b && b <= 122u8) || (65u8 <= b && b <= 90u8)
}

/// ASCII lowercase of a byte.
pub open spec fn ascii_lower(b: u8) -> u8 {
    if 65u8 <= b && b <= 90u8 { (b + 32) as u8 } else { b }
}

fn to_ascii_lower(b: u8) -> (res: u8)
    ensures
        res == ascii_lower(b),
{
    if 65u8 <= b && b <= 90u8 { b + 32 } else { b }
}

/// `DOCTYPE`, as bytes.
pub open spec fn doctype_bytes() -> Seq<u8> {
    seq![68u8, 79u8, 67u8, 84u8, 89u8, 80u8, 69u8]
}

fn doctype_byte(i: usize) -> (res: u8)
    requires
        i < 7,
    ensures
        res == doctype_bytes()[i as int],
        65 <= res <= 90,
{
    if i == 0 { 68 } else if i == 1 { 79 } else if i == 2 { 67 } else if i == 3 { 84 } else if i == 4 { 89 } else if i == 5 { 80 } else { 69 }
}

/// `DOCTYPE`, in either case, stands at `p` in `b`.
pub open spec fn doctype_at(b: Seq<u8>, p: int) -> bool {
    forall|j: int| 0 <= j < 7 ==> b[p + j] == #[trigger] doctype_bytes()[j] || b[p + j] == doctype_bytes()[j] + 32
}

/// `[CDATA[`, as bytes.
pub open spec fn cdata_bytes() -> Seq<u8> {
    seq![91u8, 67u8, 68u8, 65u8, 84u8, 65u8, 91u8]
}

fn cdata_byte(i: usize) -> (res: u8)
    requires
        i < 7,
    ensures
        res == cdata_bytes()[i as int],
{
    if i == 0 { 91 } else if i == 1 { 67 } else if i == 2 { 68 } else if i == 3 { 65 } else if i == 4 { 84 } else if i == 5 { 65 } else { 91 }
}

/// A token whose data is text: text, comment or doctype.
pub open spec fn is_text_like(t: TokenType) -> bool {
    t == TokenType::TextToken || t == TokenType::CommentToken || t == TokenType::DoctypeToken
}

/// A token for a tag.
pub open spec fn is_tag(t: TokenType) -> bool {
    t == TokenType::StartTagToken || t == TokenType::EndTagToken || t == TokenType::SelfClosingTagToken
}

/// A byte that, after `<`, opens markup: a letter, `/`, `!` or `?`.
pub open spec fn opens_markup(b: u8) -> bool {
    is_letter(b) || b == 47u8 || b == 33u8 || b == 63u8
}

/// Markup starts at position `i` of `buf`: a `<` followed by a byte that opens markup.
pub open spec fn markup_at(buf: Seq<u8>, i: int) -> bool {
    &&& 0 <= i
    &&& i + 1 < buf.len()
    &&& buf[i] == 60u8
    &&& opens_markup(buf[i + 1])
}

/// At `i` in `b` stands an end tag of the element named `name` (lowercase ASCII bytes):
/// `</`, the name with each letter in either case, then a space, `/` or `>`.
pub open spec fn end_tag_at(b: Seq<u8>, i: int, name: Seq<u8>) -> bool {
    &&& 0 <= i && i + 2 + name.len() < b.len()
    &&& b[i] == 60u8 && b[i + 1] == 47u8
    &&& forall|j: int| 0 <= j < name.len() ==> b[i + 2 + j] == #[trigger] name[j] || b[i + 2 + j] + 32 == name[j]
    &&& (is_ws(b[i + 2 + name.len()]) || b[i + 2 + name.len()] == 47u8 || b[i + 2 + name.len()] == 62u8)
}

/// From `from` on, `b` holds a `>` at `q`, and neither a `>` nor a quote before it.
pub open spec fn plain_up_to(b: Seq<u8>, from: int, q: int) -> bool {
    &&& 0 <= from <= q < b.len()
    &&& b[q] == 62u8
    &&& forall|j: int| from <= j < q ==> #[trigger] b[j] != 62u8 && b[j] != 34u8 && b[j] != 39u8
}

/// From `from` on, `b` reaches a `>` with no quote before it.
pub open spec fn plain_rest(b: Seq<u8>, from: int) -> bool {
    exists|q: int| plain_up_to(b, from, q)
}

/// Where that `>` stands.
pub open spec fn close_of(b: Seq<u8>, from: int) -> int {
    choose|q: int| plain_up_to(b, from, q)
}

/// A byte that ends a tag name: white space, `/` or `>`.
pub open spec fn ends_name(b: u8) -> bool {
    is_ws(b) || b == 47u8 || b == 62u8
}

/// `b[from..n]` holds no byte that ends a tag name, and `b[n]` ends it.
pub open spec fn name_ends_at(b: Seq<u8>, from: int, n: int) -> bool {
    &&& 0 <= from <= n < b.len()
    &&& ends_name(b[n])
    &&& forall|j: int| from <= j < n ==> !ends_name(#[trigger] b[j])
}

/// `name`, with ASCII letters in lowercase, is the name of a raw text element.
pub closed spec fn is_raw_text_name(name: Seq<u8>) -> bool {
    exists|t: RawTag| #[trigger] names_raw(name, t)
}

/// `name`, with ASCII letters in lowercase, is that of the raw text element `t`.
spec fn names_raw(name: Seq<u8>, t: RawTag) -> bool {
    t != RawTag::NoRaw && lowered_is(name, raw_tag_bytes(t))
}

/// A name is that of a raw text element when, with ASCII letters in lowercase, it is
/// `iframe`, `noembed`, `noframes`, `noscript`, `plaintext`, `script`, `style`, `title`,
/// `textarea` or `xmp`.
pub proof fn lemma_raw_text_name(name: Seq<u8>)
    ensures
        is_raw_text_name(name) <==> {
        ||| lowered_is(name, seq![105u8, 102u8, 114u8, 97u8, 109u8, 101u8])
        ||| lowered_is(name, seq![110u8, 111u8, 101u8, 109u8, 98u8, 101u8, 100u8])
        ||| lowered_is(name, seq![110u8, 111u8, 102u8, 114u8, 97u8, 109u8, 101u8, 115u8])
        ||| lowered_is(name, seq![110u8, 111u8, 115u8, 99u8, 114u8, 105u8, 112u8, 116u8])
        ||| lowered_is(name, seq![112u8, 108u8, 97u8, 105u8, 110u8, 116u8, 101u8, 120u8, 116u8])
        ||| lowered_is(name, seq![115u8, 99u8, 114u8, 105u8, 112u8, 116u8])
        ||| lowered_is(name, seq![115u8, 116u8, 121u8, 108u8, 101u8])
        ||| lowered_is(name, seq![116u8, 105u8, 116u8, 108u8, 101u8])
        ||| lowered_is(name, seq![116u8, 101u8, 120u8, 116u8, 97u8, 114u8, 101u8, 97u8])
        ||| lowered_is(name, seq![120u8, 109u8, 112u8])
        },
{
    if lowered_is(name, raw_tag_bytes(RawTag::Iframe)) {
        assert(names_raw(name, RawTag::Iframe));
    }
    if lowered_is(name, raw_tag_bytes(RawTag::Noembed)) {
        assert(names_raw(name, RawTag::Noembed));
    }
    if lowered_is(name, raw_tag_bytes(RawTag::Noframes)) {
        assert(names_raw(name, RawTag::Noframes));
    }
    if lowered_is(name, raw_tag_bytes(RawTag::Noscript)) {
        assert(names_raw(name, RawTag::Noscript));
    }
    if lowered_is(name, raw_tag_bytes(RawTag::Plaintext)) {
        assert(names_raw(name, RawTag::Plaintext));
    }
    if lowered_is(name, raw_tag_bytes(RawTag::Script)) {
        assert(names_raw(name, RawTag::Script));
    }
    if lowered_is(name, raw_tag_bytes(RawTag::Style)) {
        assert(names_raw(name, RawTag::Style));
    }
    if lowered_is(name, raw_tag_bytes(RawTag::Title)) {
        assert(names_raw(name, RawTag::Title));
    }
    if lowered_is(name, raw_tag_bytes(RawTag::Textarea)) {
        assert(names_raw(name, RawTag::Textarea));
    }
    if lowered_is(name, raw_tag_bytes(RawTag::Xmp)) {
        assert(names_raw(name, RawTag::Xmp));
    }
    if is_raw_text_name(name) {
        let t = choose|t: RawTag| #[trigger] names_raw(name, t);
        assert(names_raw(name, t));
    }
}

/// `name`, with ASCII letters in lowercase, is `lower`.
pub open spec fn lowered_is(name: Seq<u8>, lower: Seq<u8>) -> bool {
    name.len() == lower.len() && forall|i: int| 0 <= i < name.len() ==> ascii_lower(name[i]) == lower[i]
}

/// Only one position ends the name.
pub proof fn lemma_name_end_unique(b: Seq<u8>, from: int, n1: int, n2: int)
    requires
        name_ends_at(b, from, n1),
        name_ends_at(b, from, n2),
    ensures
        n1 == n2,
{
    if n1 < n2 {
        assert(!ends_name(b[n1]));
    }
    if n2 < n1 {
        assert(!ends_name(b[n2]));
    }
}

/// The lowercase name that the bytes of a tag name give, where they are UTF-8.
pub open spec fn lowercase_name(bytes: Seq<u8>) -> Option<Seq<char>> {
    match spec_decode(bytes) {
        Some(cs) => Some(spec_to_lowercase(cs)),
        None => None,
    }
}

/// What a scan over the bytes of a tag goes on through.
pub enum ScanMode {
    /// White space.
    Ws,
    /// The bytes of a tag name: all but white space, `/` and `>`.
    Name,
    /// The bytes of an attribute key: all but white space, `/`, `=` and `>`.
    Key,
    /// The bytes of an unquoted attribute value: all but white space and `>`.
    Unquoted,
    /// The bytes of a value in quotes: all but the quote.
    Quoted(u8),
}

/// The scan goes on through `c`.
pub open spec fn scan_goes_on(mode: ScanMode, c: u8) -> bool {
    match mode {
        ScanMode::Ws => is_ws(c),
        ScanMode::Name => !ends_name(c),
        ScanMode::Key => !(is_ws(c) || c == 47u8 || c == 61u8 || c == 62u8),
        ScanMode::Unquoted => !(is_ws(c) || c == 62u8),
        ScanMode::Quoted(q) => c != q,
    }
}

/// Where a scan from `p` stops: the first position from `p` on whose byte it does not go
/// on through, or the end of the input.
pub open spec fn scan_stop(b: Seq<u8>, p: int, mode: ScanMode) -> int
    decreases b.len() - p,
{
    if 0 <= p < b.len() && scan_goes_on(mode, b[p]) {
        scan_stop(b, p + 1, mode)
    } else {
        p
    }
}

/// The scan from `p` goes on through `b[p..q]` and stops at `q`.
pub proof fn lemma_scan_stop(b: Seq<u8>, p: int, q: int, mode: ScanMode)
    requires
        0 <= p <= q <= b.len(),
        forall|i: int| p <= i < q ==> scan_goes_on(mode, #[trigger] b[i]),
        q == b.len() || !scan_goes_on(mode, b[q]),
    ensures
        scan_stop(b, p, mode) == q,
    decreases q - p,
{
    if p < q {
        lemma_scan_stop(b, p + 1, q, mode);
    }
}

/// An attribute as the positions of its key and of its value in the input.
pub type AttrSpans = ((int, int), (int, int));

/// The value of an attribute whose key ends at `p`, and where reading goes on: after `=`
/// (white space aside), the bytes between quotes, or those up to white space or `>`; an
/// empty value at `p` without `=`. Nothing where the input ends first.
pub open spec fn attr_value(b: Seq<u8>, p: int) -> Option<((int, int), int)> {
    let w = scan_stop(b, p, ScanMode::Ws);
    if w >= b.len() {
        None
    } else if b[w] != 61u8 {
        Some(((p, p), w))
    } else {
        let v = scan_stop(b, w + 1, ScanMode::Ws);
        if v >= b.len() {
            None
        } else if b[v] == 62u8 {
            Some(((p, p), v))
        } else if b[v] == 39u8 || b[v] == 34u8 {
            let z = scan_stop(b, v + 1, ScanMode::Quoted(b[v]));
            if z >= b.len() {
                None
            } else {
                Some(((v + 1, z), z + 1))
            }
        } else {
            let z = scan_stop(b, v + 1, ScanMode::Unquoted);
            if z >= b.len() {
                None
            } else if b[z] == 62u8 {
                Some(((v, z), z))
            } else {
                Some(((v, z), z + 1))
            }
        }
    }
}

/// Where reading goes on after the key that starts at `p`: past a white space or `/` that
/// ends it, at a `=` or `>`.
pub open spec fn key_next(b: Seq<u8>, p: int) -> int {
    let k = scan_stop(b, p, ScanMode::Key);
    if b[k] == 61u8 || b[k] == 62u8 {
        k
    } else {
        k + 1
    }
}

/// The attributes of a tag from `p` on, where white space has been passed, and the position
/// of the `>` that closes the tag: each key with its value, those with an empty key left
/// out. Nothing where the input ends first.
pub open spec fn tag_attrs(b: Seq<u8>, p: int) -> Option<(Seq<AttrSpans>, int)>
    decreases b.len() - p,
{
    if !(0 <= p < b.len()) {
        None
    } else if b[p] == 62u8 {
        Some((Seq::empty(), p))
    } else {
        let k = scan_stop(b, p, ScanMode::Key);
        if k >= b.len() {
            None
        } else {
            match attr_value(b, key_next(b, p)) {
                None => None,
                Some((v, vp)) => {
                    let np = scan_stop(b, vp, ScanMode::Ws);
                    if np <= p || np > b.len() {
                        None
                    } else {
                        match tag_attrs(b, np) {
                            None => None,
                            Some((rest, close)) => Some(
                                (if k > p {
                                    seq![((p, k), v)] + rest
                                } else {
                                    rest
                                }, close),
                            ),
                        }
                    }
                },
            }
        }
    }
}

/// The attributes of a tag whose name goes on from `r` (past its first letter), and the
/// position of its closing `>`. Nothing where the input ends first.
pub open spec fn tag_after_name(b: Seq<u8>, r: int) -> Option<(Seq<AttrSpans>, int)> {
    let n = scan_stop(b, r, ScanMode::Name);
    if n >= b.len() {
        None
    } else {
        let w = scan_stop(b, if is_ws(b[n]) { n + 1 } else { n }, ScanMode::Ws);
        if w >= b.len() {
            None
        } else {
            tag_attrs(b, w)
        }
    }
}

/// The attributes before those of `rest`.
pub open spec fn attrs_after(pre: Seq<AttrSpans>, rest: Option<(Seq<AttrSpans>, int)>) -> Option<(Seq<AttrSpans>, int)> {
    match rest {
        Some((r, close)) => Some((pre + r, close)),
        None => None,
    }
}

/// A CDATA section whose content starts at `d` closes with the `>` at `z`: three `]`
/// within the section stand right before it.
pub open spec fn cdata_closes_at(b: Seq<u8>, d: int, z: int) -> bool {
    &&& d + 3 <= z < b.len()
    &&& b[z] == 62u8
    &&& b[z - 1] == 93u8 && b[z - 2] == 93u8 && b[z - 3] == 93u8
}

/// No `>` before `z` closes the CDATA section whose content starts at `d`.
pub open spec fn cdata_open_up_to(b: Seq<u8>, d: int, z: int) -> bool {
    forall|k: int| d <= k < z ==> !#[trigger] cdata_closes_at(b, d, k)
}

/// Where the data of a declaration read up to `>` from `p` end, and where reading goes on:
/// at the first `>`, and past it; at the end of the input where there is none.
pub open spec fn close_angle_from(b: Seq<u8>, p: int) -> (int, int) {
    let z = scan_stop(b, p, ScanMode::Quoted(62u8));
    if z < b.len() {
        (z, z + 1)
    } else {
        (b.len() as int, b.len() as int)
    }
}

/// How many bytes of `name` stand from `q + j` on, each in either case, counting from `j`:
/// up to the first that differs, all of them where none does, or up to the end of the input.
pub open spec fn name_prefix(b: Seq<u8>, q: int, name: Seq<u8>, j: int) -> int
    decreases name.len() - j,
{
    if 0 <= j < name.len() && 0 <= q + j < b.len() && (b[q + j] == name[j] || b[q + j] + 32 == name[j]) {
        name_prefix(b, q, name, j + 1)
    } else {
        j
    }
}

/// The count lies between `j` and the length of the name.
pub proof fn lemma_name_prefix_bounds(b: Seq<u8>, q: int, name: Seq<u8>, j: int)
    requires
        0 <= j <= name.len(),
    ensures
        j <= name_prefix(b, q, name, j) <= name.len(),
    decreases name.len() - j,
{
    if j < name.len() && 0 <= q + j < b.len() && (b[q + j] == name[j] || b[q + j] + 32 == name[j]) {
        lemma_name_prefix_bounds(b, q, name, j + 1);
    }
}

/// Where the text of the raw text element `name` that goes on from `p` ends: at the first end
/// tag of the element that a reading from `p` meets, or at the end of the input. The reading
/// takes `<` and the byte after it together, and after `</` goes on from the first byte that
/// does not continue the name.
pub open spec fn raw_text_end(b: Seq<u8>, p: int, name: Seq<u8>) -> int
    decreases b.len() - p,
{
    if !(0 <= p < b.len()) {
        b.len() as int
    } else if b[p] != 60u8 {
        raw_text_end(b, p + 1, name)
    } else if p + 1 >= b.len() {
        b.len() as int
    } else if b[p + 1] != 47u8 {
        raw_text_end(b, p + 2, name)
    } else {
        let k = name_prefix(b, p + 2, name, 0);
        if k < 0 || p + 2 + k >= b.len() {
            b.len() as int
        } else if k == name.len() && (is_ws(b[p + 2 + k]) || b[p + 2 + k] == 47u8 || b[p + 2 + k] == 62u8) {
            p
        } else {
            raw_text_end(b, p + 2 + k, name)
        }
    }
}

/// How the comment whose text starts at `d` goes on from `i`, with `dash` dashes just read
/// (the two of `<!--` among them): where its raw text ends, where its text ends, and whether
/// it closed, by `-->` or `--!>`, before the end of the input. A `!` after two dashes takes
/// the next byte with it: the comment closes if that byte is `>`, and goes on after it
/// otherwise. A comment left open drops at most two dashes at the end of the input.
pub open spec fn comment_scan(b: Seq<u8>, i: int, dash: int) -> (int, int, bool)
    decreases b.len() - i,
{
    if i >= b.len() {
        (b.len() as int, b.len() - (if dash > 2 { 2int } else { dash }), false)
    } else if b[i] == 45u8 {
        comment_scan(b, i + 1, dash + 1)
    } else if b[i] == 62u8 && dash >= 2 {
        (i + 1, i - 2, true)
    } else if b[i] == 33u8 && dash >= 2 {
        if i + 1 >= b.len() {
            (b.len() as int, b.len() as int, false)
        } else if b[i + 1] == 62u8 {
            (i + 2, i - 2, true)
        } else {
            comment_scan(b, i + 2, 0)
        }
    } else {
        comment_scan(b, i + 1, 0)
    }
}

/// The comment whose text starts at `d`, right after `<!--`: where its raw text ends, where
/// its text ends (not before `d`), and whether it closed before the end of the input.
pub open spec fn comment_of(b: Seq<u8>, d: int) -> (int, int, bool) {
    let (r, e, c) = comment_scan(b, d, 2);
    (r, if e < d { d } else { e }, c)
}

/// A comment read from `i` goes past every byte it reads: past `i`, and past the byte
/// after a `!` that follows two dashes.
pub proof fn lemma_comment_scan_reaches(b: Seq<u8>, i: int, dash: int)
    requires
        0 <= i,
    ensures
        i <= b.len() ==> comment_scan(b, i, dash).0 >= i,
        i < b.len() ==> comment_scan(b, i, dash).0 >= i + 1,
        i + 1 < b.len() && b[i] == 33u8 && dash >= 2 ==> comment_scan(b, i, dash).0 >= i + 2,
    decreases b.len() - i,
{
    if i < b.len() {
        if b[i] == 45u8 {
            lemma_comment_scan_reaches(b, i + 1, dash + 1);
        } else if b[i] == 62u8 && dash >= 2 {
        } else if b[i] == 33u8 && dash >= 2 {
            if i + 1 < b.len() && b[i + 1] != 62u8 {
                lemma_comment_scan_reaches(b, i + 2, 0);
            }
        } else {
            lemma_comment_scan_reaches(b, i + 1, 0);
        }
    }
}

/// `<!--` stands at `s` in `b`.
pub open spec fn is_comment_open(b: Seq<u8>, s: int) -> bool {
    b[s] == 60u8 && b[s + 1] == 33u8 && b[s + 2] == 45u8 && b[s + 3] == 45u8
}

/// Where there is such a `>`, `close_of` gives it.
pub proof fn lemma_close_of_rest(b: Seq<u8>, from: int)
    requires
        plain_rest(b, from),
    ensures
        plain_up_to(b, from, close_of(b, from)),
{
}

/// There is one such `>`, and it stays the same from any position up to it.
pub proof fn lemma_close_of(b: Seq<u8>, from: int, g: int, q: int)
    requires
        plain_up_to(b, from, q),
        from <= g <= q,
    ensures
        plain_rest(b, g),
        close_of(b, g) == q,
        close_of(b, from) == q,
{
    assert(plain_up_to(b, g, q));
    let c = close_of(b, g);
    let c0 = close_of(b, from);
    if c < q {
        assert(b[c] != 62u8);
    }
    if q < c {
        assert(b[q] != 62u8);
    }
    if c0 < q {
        assert(b[c0] != 62u8);
    }
    if q < c0 {
        assert(b[q] != 62u8);
    }
}

/// `s` with every NUL character replaced by U+FFFD.
pub open spec fn nul_replaced(s: Seq<char>) -> Seq<char> {
    s.map_values(|c: char| if c == '\0' { '\u{FFFD}' } else { c })
}

/// Replaces every NUL character by U+FFFD.
fn replace_nul(s: &String) -> (res: String)
    ensures
        res@ == nul_replaced(s@),
{
    let mut res = String::new();
    let n = s.as_str().unicode_len();
    let mut i: usize = 0;
    while i < n
        invariant
            n == s@.len(),
            i <= n,
            res@ == nul_replaced(s@.take(i as int)),
        decreases n - i,
    {
        let c = s.as_str().get_char(i);
        push_char(&mut res, if c == '\0' { '\u{FFFD}' } else { c });
        i = i + 1;
        assert(nul_replaced(s@.take(i as int)) =~= nul_replaced(s@.take(i - 1)).push(if c == '\0' { '\u{FFFD}' } else { c }));
    }
    assert(s@.take(n as int) =~= s@);
    res
}

/// The kind of error, if any.
/// `a` and `b` read the same input and stand on the same token, with the same error and the
/// same state of raw text.
pub open spec fn same_token(a: Tokenizer, b: Tokenizer) -> bool {
    &&& a.spec_buffer() == b.spec_buffer()
    &&& a.spec_raw_start() == b.spec_raw_start()
    &&& a.spec_raw_end() == b.spec_raw_end()
    &&& a.spec_token() == b.spec_token()
    &&& a.spec_err_value() == b.spec_err_value()
    &&& a.spec_raw_tag_name() == b.spec_raw_tag_name()
    &&& a.spec_raw_tag_bytes() == b.spec_raw_tag_bytes()
    &&& a.spec_attr_spans() == b.spec_attr_spans()
    &&& a.spec_nul_converted() == b.spec_nul_converted()
}

/// `b` is `a` once the data of its token are handed out: nothing is left of them.
pub open spec fn data_handed_out(a: Tokenizer, b: Tokenizer) -> bool {
    &&& same_token(a, b)
    &&& b.spec_data_range() == (a.spec_raw_end(), a.spec_raw_end())
    &&& b.spec_attr_range() == a.spec_attr_range()
    &&& b.spec_allow_cdata() == a.spec_allow_cdata()
    &&& b.spec_max_buffer() == a.spec_max_buffer()
}

pub open spec fn err_kind(e: Option<Error>) -> Option<ErrorKind> {
    match e {
        Some(e) => Some(e.kind),
        None => None,
    }
}

/// The state of script data reading, following the HTML tokenization states.
#[derive(Clone, Copy, PartialEq, Eq, Structural)]
enum ScriptState {
    Data,
    LessThan,
    EndTagOpen,
    EscapeStart,
    EscapeStartDash,
    Escaped,
    EscapedDash,
    EscapedDashDash,
    EscapedLessThan,
    EscapedEndTagOpen,
    DoubleEscapeStart,
    DoubleEscaped,
    DoubleEscapedDash,
    DoubleEscapedDashDash,
    DoubleEscapedLessThan,
    DoubleEscapedEnd,
}

/// Order among states reached without consuming input.
spec fn script_rank(s: ScriptState) -> int {
    match s {
        ScriptState::EscapedLessThan => 2,
        ScriptState::LessThan | ScriptState::EndTagOpen | ScriptState::EscapeStart
        | ScriptState::EscapeStartDash | ScriptState::EscapedEndTagOpen
        | ScriptState::DoubleEscapeStart | ScriptState::DoubleEscapedLessThan
        | ScriptState::DoubleEscapedEnd => 1,
        _ => 0,
    }
}

pub struct Tokenizer {
    buffer: Vec<u8>,
    token: TokenType,
    err: Option<Error>,
    raw: Span,
    max_buffer: usize,
    data: Span,
    pending_attribute: (Span, Span),
    attribute: Vec<(Span, Span)>,
    number_attribute_returned: usize,
    raw_tag: RawTag,
    text_is_raw: bool,
    convert_null: bool,
    allow_cdata: bool,
}

impl Tokenizer {
    spec fn attr_in(a: (Span, Span), n: nat) -> bool {
        a.0.start <= a.0.end <= n && a.1.start <= a.1.end <= n
    }

    /// Every position the tokenizer records lies in its buffer.
    pub closed spec fn inv(&self) -> bool {
        let n = self.buffer@.len();
        &&& self.raw.start <= self.raw.end <= n
        &&& self.data.start <= n && self.data.end <= n
        &&& self.pending_attribute.0.start <= n && self.pending_attribute.0.end <= n
        &&& self.pending_attribute.1.start <= n && self.pending_attribute.1.end <= n
        &&& forall|i: int| 0 <= i < self.attribute@.len() ==> #[trigger] Self::attr_in(self.attribute@[i], n)
        &&& self.number_attribute_returned <= self.attribute@.len()
        &&& (err_kind(self.err) == Some(ErrorKind::EOFError) ==> self.raw.end == n)
    }

    /// The tokenizer's invariant between two public calls.
    pub closed spec fn wf(&self) -> bool {
        &&& self.inv()
        &&& self.data.start <= self.data.end
        &&& (self.token == TokenType::EndTagToken ==> self.attribute@.len() == 0)
    }

    /// What none of the reading steps changes.
    spec fn fixed(a: Tokenizer, b: Tokenizer) -> bool {
        &&& a.buffer@ == b.buffer@
        &&& a.raw.start == b.raw.start
        &&& a.max_buffer == b.max_buffer
        &&& a.allow_cdata == b.allow_cdata
        &&& a.token == b.token
        &&& a.convert_null == b.convert_null
        &&& Self::err_step(a, b)
    }

    /// From `a` to `b` the error stays, or becomes the end of the input, or the bound on
    /// the token where there is one.
    spec fn err_step(a: Tokenizer, b: Tokenizer) -> bool {
        &&& {
            ||| b.err == a.err
            ||| err_kind(b.err) == Some(ErrorKind::EOFError)
            ||| (err_kind(b.err) == Some(ErrorKind::MaxBufferError) && b.max_buffer > 0)
        }
        &&& Self::len_ok(a) ==> Self::len_ok(b)
    }

    /// The current token is shorter than `max_buffer` while no error is met, and has reached
    /// it where the error is that bound.
    spec fn len_ok(t: Tokenizer) -> bool {
        &&& t.max_buffer > 0 && t.err is None ==> t.raw.end - t.raw.start < t.max_buffer
        &&& err_kind(t.err) == Some(ErrorKind::MaxBufferError) ==> t.raw.end - t.raw.start >= t.max_buffer
    }

    /// The next `n` bytes can be read without an error: there is no error yet, the input holds
    /// them, and the token stays within `max_buffer`.
    spec fn can_read(&self, n: int) -> bool {
        &&& self.err is None
        &&& self.raw.end + n <= self.buffer@.len()
        &&& (self.max_buffer == 0 || self.raw.end + n - self.raw.start < self.max_buffer)
    }

    /// No error yet, no bound on the token, and a `>` ahead with no quote before it.
    spec fn reads_plain(&self) -> bool {
        &&& self.err is None
        &&& self.max_buffer == 0
        &&& plain_rest(self.buffer@, self.raw.end as int)
    }

    /// Where that `>` stands.
    spec fn plain_close(&self) -> int {
        close_of(self.buffer@, self.raw.end as int)
    }

    /// No error yet and no bound on the token.
    spec fn clean(&self) -> bool {
        self.err is None && self.max_buffer == 0
    }

    spec fn span_pair(a: (Span, Span)) -> AttrSpans {
        ((a.0.start as int, a.0.end as int), (a.1.start as int, a.1.end as int))
    }

    /// The positions of the keys and the values of the attributes of the current tag.
    pub closed spec fn spec_attr_spans(&self) -> Seq<AttrSpans> {
        self.attribute@.map_values(|a: (Span, Span)| Self::span_pair(a))
    }

    /// `b` differs from `a` at most in the read position and the error.
    spec fn only_read(a: Tokenizer, b: Tokenizer) -> bool {
        &&& Self::fixed(a, b)
        &&& a.data == b.data
        &&& a.pending_attribute == b.pending_attribute
        &&& a.attribute@ == b.attribute@
        &&& a.number_attribute_returned == b.number_attribute_returned
        &&& a.raw_tag == b.raw_tag
        &&& a.text_is_raw == b.text_is_raw
        &&& a.convert_null == b.convert_null
    }

    /// A well-formed tokenizer's current token lies in its input.
    pub proof fn lemma_wf_bounds(&self)
        requires
            self.wf(),
        ensures
            0 <= self.spec_raw_start() <= self.spec_raw_end() <= self.spec_buffer().len(),
    {
    }

    /// The input the tokenizer reads.
    pub closed spec fn spec_buffer(&self) -> Seq<u8> {
        self.buffer@
    }

    /// Where the current token starts in the input.
    pub closed spec fn spec_raw_start(&self) -> int {
        self.raw.start as int
    }

    /// Where the current token ends in the input.
    pub closed spec fn spec_raw_end(&self) -> int {
        self.raw.end as int
    }

    /// The type of the current token.
    pub closed spec fn spec_token(&self) -> TokenType {
        self.token
    }

    /// The error met, if any.
    pub closed spec fn spec_err_value(&self) -> Option<Error> {
        self.err
    }

    /// This tokenizer with `allow_cdata` set.
    pub closed spec fn with_allow_cdata(self, allow_cdata: bool) -> Tokenizer {
        Tokenizer { allow_cdata, ..self }
    }

    /// This tokenizer with `max_buffer` set.
    pub closed spec fn with_max_buffer(self, max_buffer: usize) -> Tokenizer {
        Tokenizer { max_buffer, ..self }
    }

    /// This tokenizer once one more attribute is handed out.
    pub closed spec fn with_next_attr(self) -> Tokenizer {
        Tokenizer { number_attribute_returned: (self.number_attribute_returned + 1) as usize, ..self }
    }

    /// The kind of the error met, if any.
    pub closed spec fn spec_err(&self) -> Option<ErrorKind> {
        err_kind(self.err)
    }

    /// The bound on the length of a token, 0 for none.
    pub closed spec fn spec_max_buffer(&self) -> usize {
        self.max_buffer
    }

    /// Whether `<![CDATA[` sections are read as text.
    pub closed spec fn spec_allow_cdata(&self) -> bool {
        self.allow_cdata
    }

    /// Where the data of the current token starts and ends in the input: what `text` and
    /// `tag_name` hand out.
    pub closed spec fn spec_data_range(&self) -> (int, int) {
        (self.data.start as int, self.data.end as int)
    }

    /// The name of the raw text element whose content comes next, or nothing.
    pub closed spec fn spec_raw_tag_name(&self) -> Seq<char> {
        raw_tag_chars(self.raw_tag)
    }

    /// The same name, as bytes.
    pub closed spec fn spec_raw_tag_bytes(&self) -> Seq<u8> {
        raw_tag_bytes(self.raw_tag)
    }

    /// Reads one byte: at the end of the input it records the end of file, and
    /// past `max_buffer` bytes in one token it records that error.
    fn read_byte(&mut self) -> (res: u8)
        requires
            old(self).inv(),
        ensures
            final(self).inv(),
            Self::only_read(*old(self), *final(self)),
            if old(self).raw.end >= old(self).buffer@.len() {
                &&& final(self).raw.end == old(self).raw.end
                &&& err_kind(final(self).err) == Some(ErrorKind::EOFError)
                &&& res == 0
            } else if old(self).max_buffer > 0 && old(self).raw.end + 1 - old(self).raw.start
                >= old(self).max_buffer {
                &&& final(self).raw.end == old(self).raw.end + 1
                &&& err_kind(final(self).err) == Some(ErrorKind::MaxBufferError)
                &&& res == 0
            } else {
                &&& final(self).raw.end == old(self).raw.end + 1
                &&& final(self).err == old(self).err
                &&& res == old(self).buffer@[old(self).raw.end as int]
            },
    {
        if self.raw.end >= self.buffer.len() {
            self.err = Some(Error { kind: ErrorKind::EOFError, read_error: None });
            return 0;
        }
        let byte = self.buffer[self.raw.end];
        self.raw.end = self.raw.end + 1;
        if self.max_buffer > 0 && self.raw.end - self.raw.start >= self.max_buffer {
            self.err = Some(Error { kind: ErrorKind::MaxBufferError, read_error: None });
            return 0;
        }
        byte
    }

    fn skip_white_space(&mut self)
        requires
            old(self).inv(),
        ensures
            final(self).inv(),
            Self::only_read(*old(self), *final(self)),
            final(self).raw.end >= old(self).raw.end,
            old(self).err is Some ==> final(self).raw.end == old(self).raw.end && final(self).err
                == old(self).err,
            final(self).err is Some ==> err_kind(final(self).err) == Some(ErrorKind::EOFError)
                || err_kind(final(self).err) == Some(ErrorKind::MaxBufferError) || old(self).err is Some,
            final(self).err is None ==> {
                &&& final(self).raw.end < final(self).buffer@.len()
                &&& !is_ws(final(self).buffer@[final(self).raw.end as int])
                &&& forall|i: int| old(self).raw.end <= i < final(self).raw.end ==> is_ws(
                    #[trigger] final(self).buffer@[i],
                )
            },
            old(self).reads_plain() ==> final(self).err is None && final(self).raw.end <= old(self).plain_close(),
            old(self).clean() ==> final(self).raw.end == scan_stop(old(self).buffer@, old(self).raw.end as int, ScanMode::Ws)
                && (final(self).err is None <==> final(self).raw.end < final(self).buffer@.len()),
    {
        if self.err.is_some() {
            return;
        }
        loop
            invariant
                self.inv(),
                Self::only_read(*old(self), *self),
                self.raw.end >= old(self).raw.end,
                self.err is None,
                old(self).err is None,
                old(self).reads_plain() ==> self.err is None && self.raw.end <= old(self).plain_close()
                    && plain_up_to(self.buffer@, old(self).raw.end as int, old(self).plain_close()),
                forall|i: int| old(self).raw.end <= i < self.raw.end ==> is_ws(#[trigger] self.buffer@[i]),
            decreases self.buffer@.len() - self.raw.end,
        {
            let byte = self.read_byte();
            if self.err.is_some() {
                proof {
                    if old(self).clean() {
                        lemma_scan_stop(self.buffer@, old(self).raw.end as int, self.raw.end as int, ScanMode::Ws);
                    }
                }
                return;
            }
            if !is_white_space(byte) {
                self.raw.end = self.raw.end - 1;
                proof {
                    lemma_scan_stop(self.buffer@, old(self).raw.end as int, self.raw.end as int, ScanMode::Ws);
                }
                return;
            }
        }
    }

    fn read_until_close_angle(&mut self)
        requires
            old(self).inv(),
        ensures
            final(self).inv(),
            Self::fixed(*old(self), *final(self)),
            final(self).pending_attribute == old(self).pending_attribute,
            final(self).attribute@ == old(self).attribute@,
            final(self).number_attribute_returned == old(self).number_attribute_returned,
            final(self).raw_tag == old(self).raw_tag,
            final(self).raw.end >= old(self).raw.end,
            final(self).data.start == old(self).raw.end,
            final(self).data.start <= final(self).data.end <= final(self).raw.end,
            old(self).err is Some ==> final(self).err is Some,
            final(self).err is None ==> final(self).raw.end >= 1 && final(self).buffer@[final(self).raw.end - 1]
                == 62u8,
            old(self).clean() ==> {
                let (e, r) = close_angle_from(old(self).buffer@, old(self).raw.end as int);
                &&& final(self).data.end == e
                &&& final(self).raw.end == r
                &&& (final(self).err is None <==> r <= final(self).buffer@.len() && e < final(self).buffer@.len())
                &&& final(self).err is Some ==> err_kind(final(self).err) == Some(ErrorKind::EOFError)
            },
    {
        self.data.start = self.raw.end;
        loop
            invariant
                old(self).clean() ==> self.err is None && forall|j: int|
                    old(self).raw.end <= j < self.raw.end ==> scan_goes_on(ScanMode::Quoted(62u8), #[trigger] self.buffer@[j]),
                self.inv(),
                Self::fixed(*old(self), *self),
                self.pending_attribute == old(self).pending_attribute,
                self.attribute@ == old(self).attribute@,
                self.number_attribute_returned == old(self).number_attribute_returned,
                self.raw_tag == old(self).raw_tag,
                self.data.start == old(self).raw.end,
                self.raw.end >= old(self).raw.end,
                old(self).err is Some ==> self.err is Some,
            decreases self.buffer@.len() - self.raw.end,
        {
            let byte = self.read_byte();
            if self.err.is_some() {
                self.data.end = self.raw.end;
                proof {
                    if old(self).clean() {
                        lemma_scan_stop(self.buffer@, old(self).raw.end as int, self.raw.end as int, ScanMode::Quoted(62u8));
                    }
                }
                return;
            }
            if byte == 62u8 {
                self.data.end = self.raw.end - 1;
                proof {
                    if old(self).clean() {
                        lemma_scan_stop(self.buffer@, old(self).raw.end as int, self.data.end as int, ScanMode::Quoted(62u8));
                    }
                }
                return;
            }
        }
    }

    fn read_tag_name(&mut self)
        requires
            old(self).inv(),
            old(self).raw.end >= old(self).raw.start + 1,
        ensures
            final(self).inv(),
            Self::fixed(*old(self), *final(self)),
            final(self).pending_attribute == old(self).pending_attribute,
            final(self).attribute@ == old(self).attribute@,
            final(self).number_attribute_returned == old(self).number_attribute_returned,
            final(self).raw_tag == old(self).raw_tag,
            final(self).raw.end >= old(self).raw.end,
            final(self).data.start + 1 == old(self).raw.end,
            final(self).data.start <= final(self).data.end <= final(self).raw.end,
            final(self).err is None ==> final(self).raw.end >= final(self).data.start + 1,
            old(self).err is Some ==> final(self).err is Some,
            old(self).reads_plain() ==> final(self).err is None && final(self).raw.end <= old(self).plain_close(),
            old(self).reads_plain() ==> name_ends_at(
                final(self).buffer@,
                old(self).raw.end as int,
                final(self).data.end as int,
            ),
            old(self).clean() ==> {
                let b = old(self).buffer@;
                let n = scan_stop(b, old(self).raw.end as int, ScanMode::Name);
                &&& n < b.len() ==> final(self).err is None && final(self).data.end == n && final(self).raw.end == (
                if is_ws(b[n]) {
                    n + 1
                } else {
                    n
                })
                &&& n >= b.len() ==> final(self).err is Some
            },
    {
        self.data.start = self.raw.end - 1;
        loop
            invariant
                old(self).clean() ==> self.err is None && forall|j: int|
                    old(self).raw.end <= j < self.raw.end ==> scan_goes_on(ScanMode::Name, #[trigger] self.buffer@[j]),
                old(self).reads_plain() ==> self.err is None && self.raw.end <= old(self).plain_close()
                    && plain_up_to(self.buffer@, old(self).raw.end as int, old(self).plain_close()),
                old(self).reads_plain() ==> forall|j: int|
                    old(self).raw.end <= j < self.raw.end ==> !ends_name(#[trigger] self.buffer@[j]),
                self.inv(),
                Self::fixed(*old(self), *self),
                self.pending_attribute == old(self).pending_attribute,
                self.attribute@ == old(self).attribute@,
                self.number_attribute_returned == old(self).number_attribute_returned,
                self.raw_tag == old(self).raw_tag,
                self.raw.end >= old(self).raw.end,
                self.data.start + 1 == old(self).raw.end,
                old(self).err is Some ==> self.err is Some,
            decreases self.buffer@.len() - self.raw.end,
        {
            let byte = self.read_byte();
            if self.err.is_some() {
                self.data.end = self.raw.end;
                proof {
                    if old(self).clean() {
                        lemma_scan_stop(self.buffer@, old(self).raw.end as int, self.raw.end as int, ScanMode::Name);
                    }
                }
                return;
            }
            if is_white_space(byte) {
                self.data.end = self.raw.end - 1;
                proof {
                    if old(self).clean() {
                        lemma_scan_stop(self.buffer@, old(self).raw.end as int, self.data.end as int, ScanMode::Name);
                    }
                }
                return;
            }
            if byte == 47u8 || byte == 62u8 {
                self.raw.end = self.raw.end - 1;
                self.data.end = self.raw.end;
                proof {
                    if old(self).clean() {
                        lemma_scan_stop(self.buffer@, old(self).raw.end as int, self.data.end as int, ScanMode::Name);
                    }
                }
                return;
            }
        }
    }

    fn read_tag_name_attr_key(&mut self)
        requires
            old(self).inv(),
        ensures
            final(self).inv(),
            Self::fixed(*old(self), *final(self)),
            final(self).data == old(self).data,
            final(self).pending_attribute.1 == old(self).pending_attribute.1,
            final(self).attribute@ == old(self).attribute@,
            final(self).number_attribute_returned == old(self).number_attribute_returned,
            final(self).raw_tag == old(self).raw_tag,
            final(self).raw.end >= old(self).raw.end,
            final(self).pending_attribute.0.start == old(self).raw.end,
            final(self).pending_attribute.0.start <= final(self).pending_attribute.0.end <= final(self).raw.end,
            final(self).err is None && final(self).raw.end == old(self).raw.end ==> old(self).raw.end
                < old(self).buffer@.len() && (old(self).buffer@[old(self).raw.end as int] == 61u8
                || old(self).buffer@[old(self).raw.end as int] == 62u8),
            old(self).err is Some ==> final(self).err is Some,
            old(self).reads_plain() ==> final(self).err is None && final(self).raw.end <= old(self).plain_close(),
            old(self).clean() ==> {
                let b = old(self).buffer@;
                let p = old(self).raw.end as int;
                let k = scan_stop(b, p, ScanMode::Key);
                &&& k < b.len() ==> final(self).err is None && final(self).pending_attribute.0.end == k
                    && final(self).raw.end == key_next(b, p)
                &&& k >= b.len() ==> final(self).err is Some
            },
    {
        self.pending_attribute.0.start = self.raw.end;
        loop
            invariant
                old(self).clean() ==> self.err is None && forall|j: int|
                    old(self).raw.end <= j < self.raw.end ==> scan_goes_on(ScanMode::Key, #[trigger] self.buffer@[j]),
                old(self).reads_plain() ==> self.err is None && self.raw.end <= old(self).plain_close()
                    && plain_up_to(self.buffer@, old(self).raw.end as int, old(self).plain_close()),
                self.inv(),
                Self::fixed(*old(self), *self),
                self.data == old(self).data,
                self.pending_attribute.1 == old(self).pending_attribute.1,
                self.attribute@ == old(self).attribute@,
                self.number_attribute_returned == old(self).number_attribute_returned,
                self.raw_tag == old(self).raw_tag,
                self.raw.end >= old(self).raw.end,
                self.pending_attribute.0.start == old(self).raw.end,
                old(self).err is Some ==> self.err is Some,
            decreases self.buffer@.len() - self.raw.end,
        {
            let byte = self.read_byte();
            if self.err.is_some() {
                self.pending_attribute.0.end = self.raw.end;
                proof {
                    if old(self).clean() {
                        lemma_scan_stop(self.buffer@, old(self).raw.end as int, self.raw.end as int, ScanMode::Key);
                    }
                }
                return;
            }
            if is_white_space(byte) || byte == 47u8 {
                self.pending_attribute.0.end = self.raw.end - 1;
                proof {
                    if old(self).clean() {
                        lemma_scan_stop(
                            self.buffer@,
                            old(self).raw.end as int,
                            self.pending_attribute.0.end as int,
                            ScanMode::Key,
                        );
                    }
                }
                return;
            }
            if byte == 61u8 || byte == 62u8 {
                self.raw.end = self.raw.end - 1;
                self.pending_attribute.0.end = self.raw.end;
                proof {
                    if old(self).clean() {
                        lemma_scan_stop(self.buffer@, old(self).raw.end as int, self.raw.end as int, ScanMode::Key);
                    }
                }
                return;
            }
        }
    }

    fn read_tag_name_attr_value(&mut self)
        requires
            old(self).inv(),
        ensures
            final(self).inv(),
            Self::fixed(*old(self), *final(self)),
            final(self).data == old(self).data,
            final(self).pending_attribute.0 == old(self).pending_attribute.0,
            final(self).attribute@ == old(self).attribute@,
            final(self).number_attribute_returned == old(self).number_attribute_returned,
            final(self).raw_tag == old(self).raw_tag,
            final(self).raw.end >= old(self).raw.end,
            final(self).pending_attribute.1.start <= final(self).pending_attribute.1.end <= final(self).raw.end,
            final(self).err is None && old(self).raw.end < old(self).buffer@.len()
                && old(self).buffer@[old(self).raw.end as int] == 61u8 ==> final(self).raw.end
                > old(self).raw.end,
            old(self).err is Some ==> final(self).err is Some,
            old(self).reads_plain() ==> final(self).err is None && final(self).raw.end <= old(self).plain_close(),
            old(self).clean() ==> match attr_value(old(self).buffer@, old(self).raw.end as int) {
                Some((v, vp)) => {
                    &&& final(self).err is None
                    &&& final(self).pending_attribute.1.start == v.0
                    &&& final(self).pending_attribute.1.end == v.1
                    &&& final(self).raw.end == vp
                },
                None => final(self).err is Some,
            },
    {
        let ghost plain = old(self).reads_plain();
        let ghost q = old(self).plain_close();
        let ghost clean = old(self).clean();
        let ghost b = old(self).buffer@;
        self.pending_attribute.1.start = self.raw.end;
        self.pending_attribute.1.end = self.raw.end;
        self.skip_white_space();
        if self.err.is_some() {
            return;
        }
        assert(self.raw.end > old(self).raw.end ==> is_ws(self.buffer@[old(self).raw.end as int]));
        let byte = self.read_byte();
        if self.err.is_some() {
            return;
        }
        if byte != 61u8 {
            self.raw.end = self.raw.end - 1;
            return;
        }
        let ghost after_eq = self.raw.end;
        proof {
            if plain {
                lemma_close_of(self.buffer@, old(self).raw.end as int, self.raw.end as int, q);
            }
        }
        self.skip_white_space();
        if self.err.is_some() {
            return;
        }
        let ghost v = self.raw.end as int;
        let quote = self.read_byte();
        if self.err.is_some() {
            return;
        }
        if quote == 62u8 {
            self.raw.end = self.raw.end - 1;
        } else if quote == 39u8 || quote == 34u8 {
            assert(!plain);
            self.pending_attribute.1.start = self.raw.end;
            loop
                invariant
                    clean == old(self).clean(),
                    b == old(self).buffer@,
                    clean ==> self.err is None && v + 1 == self.pending_attribute.1.start && b[v] == quote
                        && forall|j: int|
                        v + 1 <= j < self.raw.end ==> scan_goes_on(ScanMode::Quoted(quote), #[trigger] b[j]),
                    clean ==> attr_value(b, old(self).raw.end as int) == (if scan_stop(b, v + 1, ScanMode::Quoted(quote)) >= b.len() {
                        None
                    } else {
                        Some(((v + 1, scan_stop(b, v + 1, ScanMode::Quoted(quote))), scan_stop(b, v + 1, ScanMode::Quoted(quote)) + 1))
                    }),
                    self.inv(),
                    Self::fixed(*old(self), *self),
                    self.data == old(self).data,
                    self.pending_attribute.0 == old(self).pending_attribute.0,
                    self.attribute@ == old(self).attribute@,
                    self.number_attribute_returned == old(self).number_attribute_returned,
                    self.raw_tag == old(self).raw_tag,
                    self.raw.end >= self.pending_attribute.1.start,
                    self.pending_attribute.1.start > old(self).raw.end,
                    old(self).err is Some ==> self.err is Some,
                    !old(self).reads_plain(),
                decreases self.buffer@.len() - self.raw.end,
            {
                let byte = self.read_byte();
                if self.err.is_some() {
                    self.pending_attribute.1.end = self.raw.end;
                    proof {
                        if clean {
                            lemma_scan_stop(b, v + 1, self.raw.end as int, ScanMode::Quoted(quote));
                        }
                    }
                    return;
                }
                if byte == quote {
                    self.pending_attribute.1.end = self.raw.end - 1;
                    proof {
                        if clean {
                            lemma_scan_stop(b, v + 1, self.raw.end - 1, ScanMode::Quoted(quote));
                        }
                    }
                    return;
                }
            }
        } else {
            self.pending_attribute.1.start = self.raw.end - 1;
            loop
                invariant
                    clean == old(self).clean(),
                    b == old(self).buffer@,
                    clean ==> self.err is None && v == self.pending_attribute.1.start && forall|j: int|
                        v + 1 <= j < self.raw.end ==> scan_goes_on(ScanMode::Unquoted, #[trigger] b[j]),
                    clean ==> attr_value(b, old(self).raw.end as int) == (if scan_stop(b, v + 1, ScanMode::Unquoted) >= b.len() {
                        None
                    } else if b[scan_stop(b, v + 1, ScanMode::Unquoted)] == 62u8 {
                        Some(((v, scan_stop(b, v + 1, ScanMode::Unquoted)), scan_stop(b, v + 1, ScanMode::Unquoted)))
                    } else {
                        Some(((v, scan_stop(b, v + 1, ScanMode::Unquoted)), scan_stop(b, v + 1, ScanMode::Unquoted) + 1))
                    }),
                    self.inv(),
                    Self::fixed(*old(self), *self),
                    self.data == old(self).data,
                    self.pending_attribute.0 == old(self).pending_attribute.0,
                    self.attribute@ == old(self).attribute@,
                    self.number_attribute_returned == old(self).number_attribute_returned,
                    self.raw_tag == old(self).raw_tag,
                    self.raw.end > self.pending_attribute.1.start,
                    self.pending_attribute.1.start > old(self).raw.end,
                    old(self).err is Some ==> self.err is Some,
                    plain ==> self.err is None && self.raw.end <= q && plain_up_to(self.buffer@, old(self).raw.end as int, q),
                    plain == old(self).reads_plain(),
                    q == old(self).plain_close(),
                decreases self.buffer@.len() - self.raw.end,
            {
                let byte = self.read_byte();
                if self.err.is_some() {
                    self.pending_attribute.1.end = self.raw.end;
                    proof {
                        if clean {
                            lemma_scan_stop(b, v + 1, self.raw.end as int, ScanMode::Unquoted);
                        }
                    }
                    return;
                }
                if is_white_space(byte) {
                    self.pending_attribute.1.end = self.raw.end - 1;
                    proof {
                        if clean {
                            lemma_scan_stop(b, v + 1, self.raw.end - 1, ScanMode::Unquoted);
                        }
                    }
                    return;
                }
                if byte == 62u8 {
                    self.raw.end = self.raw.end - 1;
                    self.pending_attribute.1.end = self.raw.end;
                    proof {
                        if clean {
                            lemma_scan_stop(b, v + 1, self.raw.end as int, ScanMode::Unquoted);
                        }
                    }
                    return;
                }
            }
        }
    }

    fn read_tag(&mut self, save_attr: bool)
        requires
            old(self).inv(),
            old(self).raw.end >= old(self).raw.start + 1,
        ensures
            final(self).inv(),
            Self::fixed(*old(self), *final(self)),
            final(self).raw_tag == old(self).raw_tag,
            final(self).raw.end >= old(self).raw.end,
            final(self).data.start + 1 == old(self).raw.end,
            final(self).data.start <= final(self).data.end <= final(self).raw.end,
            final(self).err is None ==> final(self).raw.end >= final(self).data.start + 2,
            final(self).number_attribute_returned == 0,
            !save_attr ==> final(self).attribute@.len() == 0,
            old(self).err is Some ==> final(self).err is Some,
            final(self).err is None ==> final(self).buffer@[final(self).raw.end - 1] == 62u8,
            old(self).reads_plain() ==> final(self).err is None && final(self).raw.end == old(self).plain_close() + 1,
            old(self).reads_plain() ==> name_ends_at(
                final(self).buffer@,
                old(self).raw.end as int,
                final(self).data.end as int,
            ),
            old(self).clean() && final(self).err is None ==> final(self).data.end == scan_stop(
                old(self).buffer@,
                old(self).raw.end as int,
                ScanMode::Name,
            ),
            old(self).clean() && save_attr ==> match tag_after_name(old(self).buffer@, old(self).raw.end as int) {
                Some((attrs, close)) => {
                    &&& final(self).err is None
                    &&& final(self).raw.end == close + 1
                    &&& final(self).spec_attr_spans() == attrs
                },
                None => final(self).err is Some,
            },
    {
        let ghost plain = old(self).reads_plain();
        let ghost q = old(self).plain_close();
        let ghost b = old(self).buffer@;
        let ghost r0 = old(self).raw.end as int;
        let ghost clean = old(self).clean() && save_attr;
        let ghost target = tag_after_name(b, r0);
        self.attribute = Vec::new();
        self.number_attribute_returned = 0;
        self.read_tag_name();
        let ghost dname = self.data;
        proof {
            if plain {
                lemma_close_of(b, r0, self.raw.end as int, q);
            }
        }
        self.skip_white_space();
        if self.err.is_some() {
            return;
        }
        assert(clean ==> target == attrs_after(self.spec_attr_spans(), tag_attrs(b, self.raw.end as int))) by {
            if clean {
                assert(self.spec_attr_spans() =~= Seq::<AttrSpans>::empty());
                match tag_attrs(b, self.raw.end as int) {
                    Some((r, c)) => assert(Seq::<AttrSpans>::empty() + r =~= r),
                    None => {},
                }
            }
        }
        loop
            invariant
                clean == (old(self).clean() && save_attr),
                old(self).clean() ==> dname.end == scan_stop(b, r0, ScanMode::Name),
                target == tag_after_name(b, r0),
                clean ==> target == attrs_after(self.spec_attr_spans(), tag_attrs(b, self.raw.end as int)),
                self.data == dname,
                plain ==> name_ends_at(b, r0, dname.end as int),
                plain == old(self).reads_plain(),
                q == old(self).plain_close(),
                b == old(self).buffer@,
                r0 == old(self).raw.end,
                plain ==> self.raw.end <= q && plain_up_to(b, r0, q),
                self.inv(),
                Self::fixed(*old(self), *self),
                self.raw_tag == old(self).raw_tag,
                self.raw.end >= self.data.start + 1,
                self.data.start + 1 == old(self).raw.end,
                self.data.start <= self.data.end <= self.raw.end,
                self.number_attribute_returned == 0,
                !save_attr ==> self.attribute@.len() == 0,
                self.err is None,
                old(self).err is None,
            decreases self.buffer@.len() - self.raw.end,
        {
            let ghost p = self.raw.end as int;
            let ghost pre = self.spec_attr_spans();
            let byte = self.read_byte();
            if self.err.is_some() || byte == 62u8 {
                proof {
                    if clean && byte == 62u8 && self.err is None {
                        assert(pre + Seq::<AttrSpans>::empty() =~= pre);
                    }
                }
                return;
            }
            self.raw.end = self.raw.end - 1;
            proof {
                if plain {
                    lemma_close_of(b, r0, self.raw.end as int, q);
                }
            }
            self.read_tag_name_attr_key();
            proof {
                if plain {
                    lemma_close_of(b, r0, self.raw.end as int, q);
                }
            }
            self.read_tag_name_attr_value();
            proof {
                if plain {
                    lemma_close_of(b, r0, self.raw.end as int, q);
                }
            }
            let ghost kp = self.pending_attribute;
            if save_attr && self.pending_attribute.0.start != self.pending_attribute.0.end {
                let pending = self.pending_attribute;
                self.attribute.push(pending);
            }
            let ghost vp = self.raw.end as int;
            proof {
                if save_attr {
                    if kp.0.start != kp.0.end {
                        assert(self.spec_attr_spans() =~= pre.push(Self::span_pair(kp)));
                    } else {
                        assert(self.spec_attr_spans() =~= pre);
                    }
                }
            }
            self.skip_white_space();
            proof {
                if clean && self.err is None {
                    let k = scan_stop(b, p, ScanMode::Key);
                    let np = self.raw.end as int;
                    assert(np > p);
                    assert(np <= b.len());
                    assert(attr_value(b, key_next(b, p)) == Some(((kp.1.start as int, kp.1.end as int), vp)));
                    assert(scan_stop(b, vp, ScanMode::Ws) == np);
                    match tag_attrs(b, np) {
                        Some((r, c)) => {
                            if k > p {
                                assert(pre + (seq![((p, k), (kp.1.start as int, kp.1.end as int))] + r) =~= pre.push(
                                    Self::span_pair(kp),
                                ) + r);
                            }
                        },
                        None => {},
                    }
                }
            }
            if self.err.is_some() {
                return;
            }
        }
    }

    /// Whether the current tag name is `name`, ASCII case aside.
    fn start_tag_is(&self, name: RawTag) -> (res: bool)
        requires
            self.data.start <= self.data.end <= self.buffer@.len(),
            name != RawTag::NoRaw,
        ensures
            res == (self.data.end - self.data.start == raw_tag_bytes(name).len() && forall|i: int|
                0 <= i < raw_tag_bytes(name).len() ==> ascii_lower(
                    #[trigger] self.buffer@[self.data.start + i],
                ) == raw_tag_bytes(name)[i]),
    {
        let n = raw_tag_len(name);
        if self.data.end - self.data.start != n {
            return false;
        }
        let mut i: usize = 0;
        while i < n
            invariant
                self.data.start <= self.data.end <= self.buffer@.len(),
                self.data.end - self.data.start == n == raw_tag_bytes(name).len(),
                name != RawTag::NoRaw,
                i <= n,
                forall|j: int| 0 <= j < i ==> ascii_lower(#[trigger] self.buffer@[self.data.start + j])
                    == raw_tag_bytes(name)[j],
            decreases n - i,
        {
            let c = to_ascii_lower(self.buffer[self.data.start + i]);
            if c != raw_tag_byte(name, i) {
                return false;
            }
            i = i + 1;
        }
        true
    }

    fn read_start_tag(&mut self) -> (res: TokenType)
        requires
            old(self).inv(),
            old(self).raw.end >= old(self).raw.start + 1,
            old(self).err is None,
        ensures
            res == TokenType::ErrorToken ==> final(self).raw_tag == old(self).raw_tag,
            final(self).inv(),
            Self::fixed(*old(self), *final(self)),
            final(self).raw.end >= old(self).raw.end,
            final(self).data.start <= final(self).data.end,
            res == TokenType::ErrorToken || res == TokenType::StartTagToken || res
                == TokenType::SelfClosingTagToken,
            res == TokenType::ErrorToken <==> final(self).err is Some,
            res != TokenType::ErrorToken ==> final(self).buffer@[final(self).raw.end - 1] == 62u8,
            res == TokenType::SelfClosingTagToken ==> final(self).buffer@[final(self).raw.end - 2]
                == 47u8,
            res == TokenType::StartTagToken ==> final(self).buffer@[final(self).raw.end - 2] != 47u8,
            old(self).reads_plain() ==> res != TokenType::ErrorToken && final(self).raw.end == old(self).plain_close() + 1,
            old(self).reads_plain() ==> name_ends_at(
                final(self).buffer@,
                old(self).raw.end as int,
                final(self).data.end as int,
            ) && final(self).data.start + 1 == old(self).raw.end,
            final(self).raw_tag != old(self).raw_tag ==> names_raw(
                final(self).buffer@.subrange(final(self).data.start as int, final(self).data.end as int),
                final(self).raw_tag,
            ),
            res != TokenType::ErrorToken && is_raw_text_name(
                final(self).buffer@.subrange(final(self).data.start as int, final(self).data.end as int),
            ) ==> names_raw(
                final(self).buffer@.subrange(final(self).data.start as int, final(self).data.end as int),
                final(self).raw_tag,
            ),
            final(self).number_attribute_returned == 0,
            old(self).clean() && res != TokenType::ErrorToken ==> final(self).data.start + 1 == old(self).raw.end
                && final(self).data.end == scan_stop(old(self).buffer@, old(self).raw.end as int, ScanMode::Name),
            old(self).clean() ==> match tag_after_name(old(self).buffer@, old(self).raw.end as int) {
                Some((attrs, close)) => {
                    &&& res != TokenType::ErrorToken
                    &&& final(self).raw.end == close + 1
                    &&& final(self).spec_attr_spans() == attrs
                },
                None => res == TokenType::ErrorToken,
            },
    {
        self.read_tag(true);
        if self.err.is_some() {
            return TokenType::ErrorToken;
        }
        let first = to_ascii_lower(self.buffer[self.data.start]);
        let mut raw = RawTag::NoRaw;
        if first == 105u8 {
            if self.start_tag_is(RawTag::Iframe) {
                raw = RawTag::Iframe;
            }
        } else if first == 110u8 {
            if self.start_tag_is(RawTag::Noembed) {
                raw = RawTag::Noembed;
            } else if self.start_tag_is(RawTag::Noframes) {
                raw = RawTag::Noframes;
            } else if self.start_tag_is(RawTag::Noscript) {
                raw = RawTag::Noscript;
            }
        } else if first == 112u8 {
            if self.start_tag_is(RawTag::Plaintext) {
                raw = RawTag::Plaintext;
            }
        } else if first == 115u8 {
            if self.start_tag_is(RawTag::Script) {
                raw = RawTag::Script;
            } else if self.start_tag_is(RawTag::Style) {
                raw = RawTag::Style;
            }
        } else if first == 116u8 {
            if self.start_tag_is(RawTag::Textarea) {
                raw = RawTag::Textarea;
            } else if self.start_tag_is(RawTag::Title) {
                raw = RawTag::Title;
            }
        } else if first == 120u8 {
            if self.start_tag_is(RawTag::Xmp) {
                raw = RawTag::Xmp;
            }
        }
        if raw != RawTag::NoRaw {
            proof {
                let name = self.buffer@.subrange(self.data.start as int, self.data.end as int);
                assert(name.len() == raw_tag_bytes(raw).len());
                assert forall|i: int| 0 <= i < name.len() implies ascii_lower(name[i]) == raw_tag_bytes(raw)[i] by {
                    assert(name[i] == self.buffer@[self.data.start + i]);
                }
                assert(names_raw(name, raw));
            }
            self.raw_tag = raw;
        }
        proof {
            let name = self.buffer@.subrange(self.data.start as int, self.data.end as int);
            if is_raw_text_name(name) {
                let t = choose|t: RawTag| names_raw(name, t);
                assert(name[0] == self.buffer@[self.data.start as int]);
                assert forall|i: int| 0 <= i < name.len() implies ascii_lower(self.buffer@[self.data.start + i])
                    == raw_tag_bytes(t)[i] by {
                    assert(name[i] == self.buffer@[self.data.start + i]);
                }
                assert(raw == t);
            }
        }
        if self.buffer[self.raw.end - 2] == 47u8 {
            return TokenType::SelfClosingTagToken;
        }
        TokenType::StartTagToken
    }

    /// After `</`, reads the name of the current raw text element and a delimiter; on a
    /// match the read position goes back to the `<`.
    fn read_raw_end_tag(&mut self) -> (res: bool)
        requires
            old(self).inv(),
            old(self).raw_tag != RawTag::NoRaw,
            old(self).raw.end >= old(self).raw.start + 2,
            old(self).buffer@[old(self).raw.end - 2] == 60u8,
            old(self).buffer@[old(self).raw.end - 1] == 47u8,
        ensures
            final(self).inv(),
            Self::only_read(*old(self), *final(self)),
            res ==> final(self).raw.end + 2 == old(self).raw.end && old(self).raw.end + raw_tag_bytes(
                old(self).raw_tag,
            ).len() + 1 <= old(self).buffer@.len() && final(self).err == old(self).err,
            res ==> end_tag_at(final(self).buffer@, final(self).raw.end as int, raw_tag_bytes(final(self).raw_tag)),
            res == (old(self).can_read(raw_tag_bytes(old(self).raw_tag).len() + 1int) && end_tag_at(
                old(self).buffer@,
                old(self).raw.end - 2,
                raw_tag_bytes(old(self).raw_tag),
            )),
            !res && final(self).err is None ==> final(self).raw.end >= old(self).raw.end,
            old(self).err is Some ==> final(self).err is Some,
            old(self).clean() ==> {
                let b = old(self).buffer@;
                let q = old(self).raw.end as int;
                let k = name_prefix(b, q, raw_tag_bytes(old(self).raw_tag), 0);
                &&& 0 <= k <= raw_tag_bytes(old(self).raw_tag).len()
                &&& q + k >= b.len() ==> final(self).err is Some && final(self).raw.end == b.len()
                &&& q + k < b.len() && !res ==> final(self).err is None && final(self).raw.end == q + k
                &&& res ==> k == raw_tag_bytes(old(self).raw_tag).len()
                &&& k == raw_tag_bytes(old(self).raw_tag).len() && q + k < b.len() && (is_ws(b[q + k]) || b[q + k]
                    == 47u8 || b[q + k] == 62u8) ==> res
            },
    {
        let ghost b = old(self).buffer@;
        let ghost q = old(self).raw.end as int;
        let ghost name = raw_tag_bytes(old(self).raw_tag);
        proof {
            lemma_name_prefix_bounds(b, q, name, 0);
        }
        let n = raw_tag_len(self.raw_tag);
        let mut i: usize = 0;
        while i < n
            invariant
                b == old(self).buffer@,
                q == old(self).raw.end,
                name == raw_tag_bytes(old(self).raw_tag),
                name_prefix(b, q, name, 0) == name_prefix(b, q, name, i as int),
                self.inv(),
                Self::only_read(*old(self), *self),
                n == raw_tag_bytes(self.raw_tag).len(),
                self.raw_tag != RawTag::NoRaw,
                i <= n,
                self.raw.end == old(self).raw.end + i,
                self.err == old(self).err,
                forall|j: int|
                    0 <= j < i ==> self.buffer@[old(self).raw.end + j] == #[trigger] raw_tag_bytes(
                        self.raw_tag,
                    )[j] || self.buffer@[old(self).raw.end + j] + 32 == raw_tag_bytes(self.raw_tag)[j],
            decreases n - i,
        {
            let byte = self.read_byte();
            if self.err.is_some() {
                return false;
            }
            let expected = raw_tag_byte(self.raw_tag, i);
            if byte != expected && byte != expected - 32 {
                self.raw.end = self.raw.end - 1;
                return false;
            }
            i = i + 1;
        }
        let byte = self.read_byte();
        if self.err.is_some() {
            return false;
        }
        if is_white_space(byte) || byte == 47u8 || byte == 62u8 {
            self.raw.end = self.raw.end - (3 + n);
            true
        } else {
            self.raw.end = self.raw.end - 1;
            false
        }
    }

    /// Reads script data up to its end tag, through the escape states of HTML.
    #[verifier::rlimit(40)]
    fn read_script(&mut self)
        requires
            old(self).inv(),
            old(self).raw_tag == RawTag::Script,
            old(self).err is None,
        ensures
            final(self).inv(),
            Self::fixed(*old(self), *final(self)),
            final(self).data.start == old(self).data.start,
            final(self).pending_attribute == old(self).pending_attribute,
            final(self).attribute@ == old(self).attribute@,
            final(self).number_attribute_returned == old(self).number_attribute_returned,
            final(self).raw_tag == old(self).raw_tag,
            final(self).data.end == final(self).raw.end,
            final(self).err is None ==> end_tag_at(
                final(self).buffer@,
                final(self).raw.end as int,
                raw_tag_bytes(RawTag::Script),
            ),
    {
        let mut state = ScriptState::Data;
        loop
            invariant_except_break
                self.err is None,
                (state == ScriptState::EndTagOpen || state == ScriptState::EscapedEndTagOpen || state
                    == ScriptState::DoubleEscapedEnd) ==> self.raw.end >= self.raw.start + 2,
                (state == ScriptState::DoubleEscapeStart || state == ScriptState::LessThan || state
                    == ScriptState::EscapedLessThan || state == ScriptState::DoubleEscapedLessThan)
                    ==> self.raw.end >= self.raw.start + 1,
                (state == ScriptState::LessThan || state == ScriptState::EscapedLessThan || state
                    == ScriptState::DoubleEscapedLessThan) ==> self.buffer@[self.raw.end - 1] == 60u8,
                (state == ScriptState::EndTagOpen || state == ScriptState::EscapedEndTagOpen || state
                    == ScriptState::DoubleEscapedEnd) ==> self.buffer@[self.raw.end - 2] == 60u8
                    && self.buffer@[self.raw.end - 1] == 47u8,
            invariant
                self.inv(),
                Self::only_read(*old(self), *self),
                self.raw_tag == RawTag::Script,
            ensures
                self.inv(),
                Self::only_read(*old(self), *self),
                self.raw_tag == RawTag::Script,
                self.err is None ==> end_tag_at(self.buffer@, self.raw.end as int, raw_tag_bytes(RawTag::Script)),
            decreases
                self.buffer@.len() - self.raw.end + (if state == ScriptState::DoubleEscapeStart {
                    1int
                } else {
                    0int
                }),
                script_rank(state),
        {
            match state {
                ScriptState::Data => {
                    let byte = self.read_byte();
                    if self.err.is_some() {
                        break;
                    }
                    state = if byte == 60u8 { ScriptState::LessThan } else { ScriptState::Data };
                },
                ScriptState::LessThan => {
                    let byte = self.read_byte();
                    if self.err.is_some() {
                        break;
                    }
                    if byte == 47u8 {
                        state = ScriptState::EndTagOpen;
                    } else if byte == 33u8 {
                        state = ScriptState::EscapeStart;
                    } else {
                        self.raw.end = self.raw.end - 1;
                        state = ScriptState::Data;
                    }
                },
                ScriptState::EndTagOpen => {
                    if self.read_raw_end_tag() || self.err.is_some() {
                        break;
                    }
                    state = ScriptState::Data;
                },
                ScriptState::EscapeStart | ScriptState::EscapeStartDash => {
                    let byte = self.read_byte();
                    if self.err.is_some() {
                        break;
                    }
                    if byte == 45u8 {
                        state = if state == ScriptState::EscapeStart {
                            ScriptState::EscapeStartDash
                        } else {
                            ScriptState::EscapedDashDash
                        };
                    } else {
                        self.raw.end = self.raw.end - 1;
                        state = ScriptState::Data;
                    }
                },
                ScriptState::Escaped | ScriptState::EscapedDash | ScriptState::EscapedDashDash => {
                    let byte = self.read_byte();
                    if self.err.is_some() {
                        break;
                    }
                    if byte == 45u8 {
                        state = if state == ScriptState::Escaped {
                            ScriptState::EscapedDash
                        } else {
                            ScriptState::EscapedDashDash
                        };
                    } else if byte == 60u8 {
                        state = ScriptState::EscapedLessThan;
                    } else if byte == 62u8 && state == ScriptState::EscapedDashDash {
                        state = ScriptState::Data;
                    } else {
                        state = ScriptState::Escaped;
                    }
                },
                ScriptState::EscapedLessThan => {
                    let byte = self.read_byte();
                    if self.err.is_some() {
                        break;
                    }
                    if byte == 47u8 {
                        state = ScriptState::EscapedEndTagOpen;
                    } else if is_ascii_letter(byte) {
                        state = ScriptState::DoubleEscapeStart;
                    } else {
                        self.raw.end = self.raw.end - 1;
                        state = ScriptState::Data;
                    }
                },
                ScriptState::EscapedEndTagOpen => {
                    if self.read_raw_end_tag() || self.err.is_some() {
                        break;
                    }
                    state = ScriptState::Escaped;
                },
                ScriptState::DoubleEscapeStart => {
                    self.raw.end = self.raw.end - 1;
                    let ghost entry = self.raw.end;
                    let mut i: usize = 0;
                    let mut matched = true;
                    while i < 6
                        invariant_except_break
                            self.err is None,
                            self.raw.end == entry + i,
                            matched,
                        invariant
                            self.inv(),
                            Self::only_read(*old(self), *self),
                            self.raw_tag == RawTag::Script,
                            i <= 6,
                            entry >= self.raw.start,
                        ensures
                            self.err is None ==> self.raw.end >= entry,
                            self.err is None && matched ==> self.raw.end == entry + 6,
                        decreases 6 - i,
                    {
                        let byte = self.read_byte();
                        if self.err.is_some() {
                            break;
                        }
                        let expected = raw_tag_byte(RawTag::Script, i);
                        if byte != expected && byte != expected - 32 {
                            self.raw.end = self.raw.end - 1;
                            matched = false;
                            break;
                        }
                        i = i + 1;
                    }
                    if self.err.is_some() {
                        break;
                    }
                    if !matched {
                        state = ScriptState::Escaped;
                    } else {
                        let byte = self.read_byte();
                        if self.err.is_some() {
                            break;
                        }
                        if is_white_space(byte) || byte == 47u8 || byte == 62u8 {
                            state = ScriptState::DoubleEscaped;
                        } else {
                            self.raw.end = self.raw.end - 1;
                            state = ScriptState::Escaped;
                        }
                    }
                },
                ScriptState::DoubleEscaped | ScriptState::DoubleEscapedDash
                | ScriptState::DoubleEscapedDashDash => {
                    let byte = self.read_byte();
                    if self.err.is_some() {
                        break;
                    }
                    if byte == 45u8 {
                        state = if state == ScriptState::DoubleEscaped {
                            ScriptState::DoubleEscapedDash
                        } else {
                            ScriptState::DoubleEscapedDashDash
                        };
                    } else if byte == 60u8 {
                        state = ScriptState::DoubleEscapedLessThan;
                    } else if byte == 62u8 && state == ScriptState::DoubleEscapedDashDash {
                        state = ScriptState::Data;
                    } else {
                        state = ScriptState::DoubleEscaped;
                    }
                },
                ScriptState::DoubleEscapedLessThan => {
                    let byte = self.read_byte();
                    if self.err.is_some() {
                        break;
                    }
                    if byte == 47u8 {
                        state = ScriptState::DoubleEscapedEnd;
                    } else {
                        self.raw.end = self.raw.end - 1;
                        state = ScriptState::DoubleEscaped;
                    }
                },
                ScriptState::DoubleEscapedEnd => {
                    assert(raw_tag_bytes(RawTag::Script).len() == 6);
                    let blen = self.buffer.len();
                    if self.read_raw_end_tag() {
                        assert(self.raw.end + 9 <= blen);
                        self.raw.end = self.raw.end + 9;
                        state = ScriptState::Escaped;
                    } else {
                        if self.err.is_some() {
                            break;
                        }
                        state = ScriptState::DoubleEscaped;
                    }
                },
            }
        }
        self.data.end = self.raw.end;
    }

    /// Reads the content of a raw text element other than `plaintext` up to its end tag.
    fn read_raw_or_cdata(&mut self)
        requires
            old(self).inv(),
            old(self).raw_tag != RawTag::NoRaw,
            old(self).raw_tag != RawTag::Plaintext,
            old(self).err is None,
            old(self).data.start == old(self).raw.start,
        ensures
            final(self).inv(),
            Self::fixed(*old(self), *final(self)),
            final(self).data.start == old(self).data.start,
            final(self).data.end == final(self).raw.end,
            final(self).attribute@ == old(self).attribute@,
            final(self).number_attribute_returned == old(self).number_attribute_returned,
            final(self).raw_tag == RawTag::NoRaw,
            final(self).err is None ==> end_tag_at(
                final(self).buffer@,
                final(self).raw.end as int,
                raw_tag_bytes(old(self).raw_tag),
            ),
            old(self).clean() && old(self).raw_tag != RawTag::Script ==> final(self).raw.end == raw_text_end(
                old(self).buffer@,
                old(self).raw.end as int,
                raw_tag_bytes(old(self).raw_tag),
            ) && (final(self).err is None <==> final(self).raw.end < final(self).buffer@.len()),
    {
        let ghost b = old(self).buffer@;
        let ghost name = raw_tag_bytes(old(self).raw_tag);
        let ghost target = raw_text_end(b, old(self).raw.end as int, name);
        let ghost clean = old(self).clean();
        if self.raw_tag == RawTag::Script {
            self.read_script();
            self.text_is_raw = true;
            self.raw_tag = RawTag::NoRaw;
            return;
        }
        loop
            invariant_except_break
                clean ==> self.err is None && raw_text_end(b, self.raw.end as int, name) == target,
            invariant
                self.inv(),
                Self::only_read(*old(self), *self),
                self.raw_tag == old(self).raw_tag,
                self.raw_tag != RawTag::NoRaw,
                b == old(self).buffer@,
                name == raw_tag_bytes(old(self).raw_tag),
                clean == old(self).clean(),
                target == raw_text_end(b, old(self).raw.end as int, name),
            ensures
                self.err is None ==> end_tag_at(self.buffer@, self.raw.end as int, raw_tag_bytes(self.raw_tag)),
                clean ==> self.raw.end == target && (self.err is None <==> self.raw.end < b.len()),
            decreases self.buffer@.len() - self.raw.end,
        {
            let ghost r = self.raw.end as int;
            let byte = self.read_byte();
            if self.err.is_some() {
                break;
            }
            if byte != 60u8 {
                continue;
            }
            let byte = self.read_byte();
            if self.err.is_some() {
                break;
            }
            if byte != 47u8 {
                continue;
            }
            let ghost before = self.raw.end;
            let found = self.read_raw_end_tag();
            if found || self.err.is_some() {
                break;
            }
        }
        self.data.end = self.raw.end;
        self.text_is_raw = self.raw_tag != RawTag::Textarea && self.raw_tag != RawTag::Title;
        self.raw_tag = RawTag::NoRaw;
    }

    /// Reads a comment after `<!--`, up to `-->` or `--!>`.
    fn read_comment(&mut self)
        requires
            old(self).inv(),
            old(self).raw.end >= 2,
        ensures
            final(self).inv(),
            Self::fixed(*old(self), *final(self)),
            final(self).pending_attribute == old(self).pending_attribute,
            final(self).attribute@ == old(self).attribute@,
            final(self).number_attribute_returned == old(self).number_attribute_returned,
            final(self).raw_tag == old(self).raw_tag,
            final(self).raw.end >= old(self).raw.end,
            final(self).data.start == old(self).raw.end,
            final(self).data.start <= final(self).data.end <= final(self).raw.end,
            final(self).err is None ==> final(self).raw.end >= 1 && final(self).buffer@[final(self).raw.end - 1]
                == 62u8,
            old(self).err is None && (old(self).max_buffer == 0 || comment_of(old(self).buffer@, old(self).raw.end as int).0
                - old(self).raw.start < old(self).max_buffer) ==> {
                let (r, e, c) = comment_of(old(self).buffer@, old(self).raw.end as int);
                &&& final(self).raw.end == r
                &&& final(self).data.end == e
                &&& (final(self).err is None <==> c)
                &&& !c ==> err_kind(final(self).err) == Some(ErrorKind::EOFError)
            },
    {
        let ghost d = self.raw.end as int;
        let ghost b = self.buffer@;
        let ghost clean = self.err is None && (self.max_buffer == 0 || comment_of(b, d).0 - self.raw.start
            < self.max_buffer);
        self.data.start = self.raw.end;
        let mut dash_count: usize = 2;
        loop
            invariant_except_break
                clean ==> self.err is None,
                clean ==> comment_scan(b, self.raw.end as int, dash_count as int) == comment_scan(b, d, 2),
            invariant
                self.inv(),
                Self::fixed(*old(self), *self),
                self.pending_attribute == old(self).pending_attribute,
                self.attribute@ == old(self).attribute@,
                self.number_attribute_returned == old(self).number_attribute_returned,
                self.raw_tag == old(self).raw_tag,
                self.data.start == old(self).raw.end,
                self.raw.end >= self.data.start,
                self.raw.end + 2 >= self.data.start + dash_count,
                self.data.start >= 2,
                d == old(self).raw.end,
                b == old(self).buffer@,
                clean == (old(self).err is None && (old(self).max_buffer == 0 || comment_of(b, d).0
                    - old(self).raw.start < old(self).max_buffer)),
            ensures
                self.inv(),
                Self::fixed(*old(self), *self),
                self.pending_attribute == old(self).pending_attribute,
                self.attribute@ == old(self).attribute@,
                self.number_attribute_returned == old(self).number_attribute_returned,
                self.raw_tag == old(self).raw_tag,
                self.data.start == old(self).raw.end,
                self.raw.end >= self.data.start,
                self.data.end <= self.raw.end,
                self.err is None ==> self.raw.end >= 1 && self.buffer@[self.raw.end - 1] == 62u8,
                clean ==> comment_scan(b, d, 2) == (self.raw.end as int, self.data.end as int, self.err is None),
                clean && self.err is Some ==> err_kind(self.err) == Some(ErrorKind::EOFError),
            decreases self.buffer@.len() - self.raw.end,
        {
            proof {
                if clean {
                    lemma_comment_scan_reaches(b, self.raw.end as int, dash_count as int);
                }
            }
            let byte = self.read_byte();
            if self.err.is_some() {
                if dash_count > 2 {
                    dash_count = 2;
                }
                self.data.end = self.raw.end - dash_count;
                break;
            }
            if byte == 45u8 {
                dash_count = dash_count + 1;
                continue;
            }
            if byte == 62u8 {
                if dash_count >= 2 {
                    self.data.end = self.raw.end - 3;
                    break;
                }
            } else if byte == 33u8 {
                if dash_count >= 2 {
                    let byte = self.read_byte();
                    if self.err.is_some() {
                        self.data.end = self.raw.end;
                        break;
                    }
                    if byte == 62u8 {
                        self.data.end = self.raw.end - 4;
                        break;
                    }
                }
            }
            dash_count = 0;
        }
        if self.data.end < self.data.start {
            self.data.end = self.data.start;
        }
    }

    /// Reads `DOCTYPE` (any case), white space and the declaration up to `>`.
    fn read_doc_type(&mut self) -> (res: bool)
        requires
            old(self).inv(),
            old(self).data.start == old(self).raw.end,
        ensures
            final(self).inv(),
            Self::fixed(*old(self), *final(self)),
            final(self).pending_attribute == old(self).pending_attribute,
            final(self).attribute@ == old(self).attribute@,
            final(self).number_attribute_returned == old(self).number_attribute_returned,
            final(self).raw_tag == old(self).raw_tag,
            res ==> final(self).data.start <= final(self).data.end,
            !res ==> final(self).data.start == old(self).data.start && final(self).raw.end
                >= final(self).data.start,
            final(self).raw.end >= old(self).raw.end,
            old(self).err is Some ==> final(self).err is Some,
            res && final(self).err is None ==> final(self).raw.end >= 1 && final(self).buffer@[
                final(self).raw.end - 1
            ] == 62u8,
            res == (old(self).can_read(7) && doctype_at(old(self).buffer@, old(self).raw.end as int)),
            !res && old(self).can_read(7) ==> final(self).err == old(self).err && final(self).raw.end == old(self).raw.end,
            res && old(self).clean() ==> {
                let b = old(self).buffer@;
                let w = scan_stop(b, old(self).raw.end + 7, ScanMode::Ws);
                if w >= b.len() {
                    &&& err_kind(final(self).err) == Some(ErrorKind::EOFError)
                    &&& final(self).raw.end == b.len()
                    &&& final(self).data.start == b.len() && final(self).data.end == b.len()
                } else {
                    &&& final(self).data.start == w
                    &&& (final(self).data.end as int, final(self).raw.end as int) == close_angle_from(b, w)
                    &&& (final(self).err is None <==> final(self).data.end < b.len())
                    &&& final(self).err is Some ==> err_kind(final(self).err) == Some(ErrorKind::EOFError)
                }
            },
    {
        let mut i: usize = 0;
        while i < 7
            invariant
                self.inv(),
                Self::only_read(*old(self), *self),
                i <= 7,
                self.raw.end == old(self).raw.end + i,
                self.err == old(self).err,
                forall|j: int|
                    0 <= j < i ==> self.buffer@[old(self).raw.end + j] == #[trigger] doctype_bytes()[j]
                        || self.buffer@[old(self).raw.end + j] == doctype_bytes()[j] + 32,
                i > 0 ==> old(self).can_read(i as int),
                old(self).data.start == old(self).raw.end,
                old(self).inv(),
            decreases 7 - i,
        {
            let byte = self.read_byte();
            if self.err.is_some() {
                self.data.end = self.raw.end;
                return false;
            }
            let expected = doctype_byte(i);
            if byte != expected && byte != expected + 32 {
                self.raw.end = self.data.start;
                return false;
            }
            i = i + 1;
        }
        self.skip_white_space();
        if self.err.is_some() {
            self.data.start = self.raw.end;
            self.data.end = self.raw.end;
            return true;
        }
        self.read_until_close_angle();
        true
    }

    /// Reads `[CDATA[` and the section up to `]]>`.
    fn read_cdata(&mut self) -> (res: bool)
        requires
            old(self).inv(),
            old(self).raw.start <= old(self).data.start <= old(self).raw.end,
        ensures
            final(self).inv(),
            Self::fixed(*old(self), *final(self)),
            final(self).pending_attribute == old(self).pending_attribute,
            final(self).attribute@ == old(self).attribute@,
            final(self).number_attribute_returned == old(self).number_attribute_returned,
            final(self).raw_tag == old(self).raw_tag,
            res ==> final(self).data.start <= final(self).data.end,
            final(self).raw.end >= old(self).data.start,
            old(self).err is Some ==> final(self).err is Some,
            res && final(self).err is None ==> final(self).raw.end >= 1 && final(self).buffer@[
                final(self).raw.end - 1
            ] == 62u8,
            res == (old(self).can_read(7) && cdata_at(old(self).buffer@, old(self).raw.end as int)),
            !res && old(self).can_read(7) ==> final(self).err == old(self).err && final(self).raw.end == old(self).data.start,
            res && old(self).clean() ==> {
                let b = old(self).buffer@;
                let d = old(self).raw.end + 7;
                &&& final(self).data.start == d
                &&& forall|z: int|
                    cdata_open_up_to(b, d, z) && #[trigger] cdata_closes_at(b, d, z) ==> final(self).err is None
                        && final(self).raw.end == z + 1 && final(self).data.end == z - 2
                &&& cdata_open_up_to(b, d, b.len() as int) ==> err_kind(final(self).err) == Some(ErrorKind::EOFError)
                    && final(self).raw.end == b.len() && final(self).data.end == b.len()
            },
    {
        let ghost b = old(self).buffer@;
        let ghost clean = old(self).clean();
        let mut i: usize = 0;
        while i < 7
            invariant
                self.inv(),
                Self::only_read(*old(self), *self),
                i <= 7,
                self.raw.end == old(self).raw.end + i,
                self.err == old(self).err,
                forall|j: int|
                    0 <= j < i ==> self.buffer@[old(self).raw.end + j] == #[trigger] cdata_bytes()[j],
                i > 0 ==> old(self).can_read(i as int),
                self.raw.end >= old(self).raw.end,
                old(self).data.start <= old(self).raw.end,
                old(self).data.start >= old(self).raw.start,
                old(self).err is Some ==> self.err is Some,
            decreases 7 - i,
        {
            let byte = self.read_byte();
            if self.err.is_some() {
                self.data.end = self.raw.end;
                return false;
            }
            if byte != cdata_byte(i) {
                self.raw.end = self.data.start;
                return false;
            }
            i = i + 1;
        }
        self.data.start = self.raw.end;
        let ghost d = self.raw.end as int;
        let mut brackets: usize = 0;
        loop
            invariant
                b == old(self).buffer@,
                clean == old(self).clean(),
                d == old(self).raw.end + 7,
                clean ==> {
                    &&& self.err is None
                    &&& self.data.start == d
                    &&& d <= self.raw.end - brackets
                    &&& forall|j: int| self.raw.end - brackets <= j < self.raw.end ==> #[trigger] b[j] == 93u8
                    &&& self.raw.end - brackets == d || b[self.raw.end - brackets - 1] != 93u8
                    &&& cdata_open_up_to(b, d, self.raw.end as int)
                },
                self.inv(),
                Self::fixed(*old(self), *self),
                self.pending_attribute == old(self).pending_attribute,
                self.attribute@ == old(self).attribute@,
                self.number_attribute_returned == old(self).number_attribute_returned,
                self.raw_tag == old(self).raw_tag,
                self.data.start >= old(self).data.start,
                self.raw.end >= self.data.start + brackets,
                old(self).err is Some ==> self.err is Some,
                old(self).can_read(7) && cdata_at(old(self).buffer@, old(self).raw.end as int),
            decreases self.buffer@.len() - self.raw.end,
        {
            let ghost r = self.raw.end as int;
            let byte = self.read_byte();
            if self.err.is_some() {
                self.data.end = self.raw.end;
                proof {
                    if clean {
                        assert forall|z: int| cdata_open_up_to(b, d, z) && #[trigger] cdata_closes_at(b, d, z) implies false by {
                            assert(!cdata_closes_at(b, d, z));
                        }
                    }
                }
                return true;
            }
            if byte == 93u8 {
                brackets = brackets + 1;
            } else if byte == 62u8 {
                if brackets > 2 {
                    self.data.end = self.raw.end - 3;
                    proof {
                        if clean {
                            assert(b[r - 1] == 93u8 && b[r - 2] == 93u8 && b[r - 3] == 93u8);
                            assert(cdata_closes_at(b, d, r));
                            assert forall|z: int| cdata_open_up_to(b, d, z) && #[trigger] cdata_closes_at(b, d, z) implies z == r by {
                                if z < r {
                                    assert(!cdata_closes_at(b, d, z));
                                }
                                if z > r {
                                    assert(!cdata_closes_at(b, d, r));
                                }
                            }
                            assert(!cdata_open_up_to(b, d, b.len() as int)) by {
                                assert(cdata_closes_at(b, d, r) && d <= r < b.len());
                            }
                        }
                    }
                    return true;
                }
                proof {
                    if clean {
                        if cdata_closes_at(b, d, r) {
                            assert(b[r - 1] == 93u8 && b[r - 2] == 93u8 && b[r - 3] == 93u8);
                            let t = r - brackets - 1;
                            assert(b[t] == 93u8);
                        }
                    }
                }
                brackets = 0;
            } else {
                brackets = 0;
            }
        }
    }

    /// After `<!`: a comment, a doctype, a CDATA section or a bogus comment.
    fn read_markup_declaration(&mut self) -> (res: TokenType)
        requires
            old(self).inv(),
            old(self).raw.end >= 2,
        ensures
            final(self).inv(),
            Self::fixed(*old(self), *final(self)),
            final(self).attribute@ == old(self).attribute@,
            final(self).number_attribute_returned == old(self).number_attribute_returned,
            final(self).raw_tag == old(self).raw_tag,
            final(self).data.start <= final(self).data.end,
            final(self).raw.end >= old(self).raw.end,
            res == TokenType::CommentToken || res == TokenType::DoctypeToken || res
                == TokenType::TextToken,
            final(self).err is None ==> final(self).raw.end >= 1 && final(self).buffer@[final(self).raw.end - 1]
                == 62u8,
            ({
                let b = old(self).buffer@;
                let p = old(self).raw.end as int;
                old(self).err is None && (old(self).max_buffer == 0 || comment_of(b, p + 2).0 - old(self).raw.start
                    < old(self).max_buffer) && p + 1 < b.len() && b[p] == 45u8 && b[p + 1] == 45u8 ==> {
                    let (r, e, c) = comment_of(b, p + 2);
                    &&& res == TokenType::CommentToken
                    &&& final(self).data.start == p + 2
                    &&& final(self).raw.end == r
                    &&& final(self).data.end == e
                    &&& (final(self).err is None <==> c)
                    &&& !c ==> err_kind(final(self).err) == Some(ErrorKind::EOFError)
                }
            }),
            ({
                let b = old(self).buffer@;
                let p = old(self).raw.end as int;
                old(self).clean() && p + 7 <= b.len() && !(b[p] == 45u8 && b[p + 1] == 45u8) ==> {
                    &&& doctype_at(b, p) ==> res == TokenType::DoctypeToken && {
                        let w = scan_stop(b, p + 7, ScanMode::Ws);
                        if w >= b.len() {
                            &&& err_kind(final(self).err) == Some(ErrorKind::EOFError)
                            &&& final(self).raw.end == b.len()
                            &&& final(self).data.start == b.len() && final(self).data.end == b.len()
                        } else {
                            &&& final(self).data.start == w
                            &&& (final(self).data.end as int, final(self).raw.end as int) == close_angle_from(b, w)
                        }
                    }
                    &&& !doctype_at(b, p) && cdata_at(b, p) && old(self).allow_cdata ==> {
                        &&& res == TokenType::TextToken
                        &&& final(self).data.start == p + 7
                        &&& forall|z: int|
                            cdata_open_up_to(b, p + 7, z) && #[trigger] cdata_closes_at(b, p + 7, z) ==> final(self).err
                                is None && final(self).raw.end == z + 1 && final(self).data.end == z - 2
                        &&& cdata_open_up_to(b, p + 7, b.len() as int) ==> err_kind(final(self).err) == Some(
                            ErrorKind::EOFError,
                        ) && final(self).raw.end == b.len() && final(self).data.end == b.len()
                    }
                    &&& !doctype_at(b, p) && !(cdata_at(b, p) && old(self).allow_cdata) ==> {
                        &&& res == TokenType::CommentToken
                        &&& final(self).data.start == p
                        &&& (final(self).data.end as int, final(self).raw.end as int) == close_angle_from(b, p)
                    }
                }
            }),
    {
        proof {
            if self.raw.end + 2 <= self.buffer@.len() {
                lemma_comment_scan_reaches(self.buffer@, self.raw.end + 2, 2);
            }
        }
        self.data.start = self.raw.end;
        let first_byte = self.read_byte();
        if self.err.is_some() {
            self.data.end = self.raw.end;
            return TokenType::CommentToken;
        }
        let second_byte = self.read_byte();
        if self.err.is_some() {
            self.data.end = self.raw.end;
            return TokenType::CommentToken;
        }
        if first_byte == 45u8 && second_byte == 45u8 {
            self.read_comment();
            return TokenType::CommentToken;
        }
        self.raw.end = self.raw.end - 2;
        if self.read_doc_type() {
            return TokenType::DoctypeToken;
        }
        if self.allow_cdata && self.read_cdata() {
            return TokenType::TextToken;
        }
        self.read_until_close_angle();
        TokenType::CommentToken
    }

    pub fn new(input: Vec<u8>) -> (res: Tokenizer)
        ensures
            res.wf(),
            res.spec_buffer() == input@,
            res.spec_raw_start() == 0,
            res.spec_raw_end() == 0,
            res.spec_token() == TokenType::NoneToken,
            res.spec_err() is None,
            res.spec_max_buffer() == 0,
            res.spec_allow_cdata(),
            res.spec_raw_tag_name() == Seq::<char>::empty(),
    {
        Tokenizer::new_fragment(input, String::new())
    }

    /// A tokenizer for a fragment of HTML that stands in the element `context_tag`: in a raw
    /// text element the content is read as text up to the element's end tag.
    pub fn new_fragment(input: Vec<u8>, context_tag: String) -> (res: Tokenizer)
        ensures
            res.wf(),
            res.spec_buffer() == input@,
            res.spec_raw_start() == 0,
            res.spec_raw_end() == 0,
            res.spec_token() == TokenType::NoneToken,
            res.spec_err() is None,
            res.spec_max_buffer() == 0,
            res.spec_allow_cdata(),
            res.spec_raw_tag_name() == (if context_tag@.len() == 0 {
                Seq::<char>::empty()
            } else {
                let lower = spec_to_lowercase(context_tag@);
                if is_raw_text_element(lower) { lower } else { Seq::<char>::empty() }
            }),
    {
        let mut tokenizer = Tokenizer {
            buffer: input,
            token: TokenType::NoneToken,
            err: None,
            raw: Span { start: 0, end: 0 },
            max_buffer: 0,
            data: Span { start: 0, end: 0 },
            pending_attribute: (Span { start: 0, end: 0 }, Span { start: 0, end: 0 }),
            attribute: Vec::new(),
            number_attribute_returned: 0,
            raw_tag: RawTag::NoRaw,
            text_is_raw: false,
            convert_null: false,
            allow_cdata: true,
        };
        if !context_tag.as_str().is_empty() {
            let lower = to_lowercase(context_tag.as_str());
            tokenizer.raw_tag = raw_tag_from_name(lower.as_str());
        }
        tokenizer
    }

    pub fn err(&self) -> (res: Option<&Error>)
        ensures
            match res {
                Some(e) => self.spec_err_value() == Some(*e) && self.spec_err() == Some(e.kind),
                None => self.spec_err_value() is None && self.spec_err() is None,
            },
    {
        match &self.err {
            Some(e) => Some(e),
            None => None,
        }
    }

    pub fn allow_cdata(&mut self, allow_cdata: bool)
        requires
            old(self).wf(),
        ensures
            final(self).wf(),
            *final(self) == old(self).with_allow_cdata(allow_cdata),
            same_token(*old(self), *final(self)),
            final(self).spec_data_range() == old(self).spec_data_range(),
            final(self).spec_attr_range() == old(self).spec_attr_range(),
            final(self).spec_max_buffer() == old(self).spec_max_buffer(),
            final(self).spec_allow_cdata() == allow_cdata,
    {
        self.allow_cdata = allow_cdata;
    }

    pub fn set_max_buffer(&mut self, max_buffer: usize)
        requires
            old(self).wf(),
        ensures
            final(self).wf(),
            *final(self) == old(self).with_max_buffer(max_buffer),
            same_token(*old(self), *final(self)),
            final(self).spec_data_range() == old(self).spec_data_range(),
            final(self).spec_attr_range() == old(self).spec_attr_range(),
            final(self).spec_max_buffer() == max_buffer,
            final(self).spec_allow_cdata() == old(self).spec_allow_cdata(),
    {
        self.max_buffer = max_buffer;
    }

    /// What is left of the input after the current token.
    pub fn buffered(&self) -> (res: Result<String, HtmlParseError>)
        requires
            self.wf(),
        ensures
            res is Ok <==> valid_utf8(self.spec_buffer().skip(self.spec_raw_end())),
            res matches Ok(s) ==> s@ == decode_utf8(self.spec_buffer().skip(self.spec_raw_end())),
    {
        let bytes = copy_range(&self.buffer, self.raw.end, self.buffer.len());
        assert(bytes@ =~= self.buffer@.skip(self.raw.end as int));
        match string_from_utf8(bytes) {
            Ok(s) => Ok(s),
            Err(e) => Err(HtmlParseError::FromUtf8Error(e)),
        }
    }

    /// The input of the current token, as it was read.
    pub fn raw(&self) -> (res: Result<String, HtmlParseError>)
        requires
            self.wf(),
        ensures
            res is Ok <==> valid_utf8(self.spec_raw_bytes()),
            res matches Ok(s) ==> s@ == decode_utf8(self.spec_raw_bytes()),
    {
        let bytes = copy_range(&self.buffer, self.raw.start, self.raw.end);
        match string_from_utf8(bytes) {
            Ok(s) => Ok(s),
            Err(e) => Err(HtmlParseError::FromUtf8Error(e)),
        }
    }

    /// The bytes of the current token are those between its start and its end.
    pub proof fn lemma_raw_bytes(&self)
        ensures
            self.spec_raw_bytes() == self.spec_buffer().subrange(self.spec_raw_start(), self.spec_raw_end()),
    {
    }

    /// The bytes of the current token.
    pub closed spec fn spec_raw_bytes(&self) -> Seq<u8> {
        self.buffer@.subrange(self.raw.start as int, self.raw.end as int)
    }

    spec fn span_bytes(&self, s: Span) -> Seq<u8> {
        self.buffer@.subrange(s.start as int, s.end as int)
    }

    /// The text that `text` gives for the current token: its data decoded, with NUL
    /// characters replaced in text; nothing when the data are not UTF-8.
    pub closed spec fn spec_text(&self) -> Option<Seq<char>> {
        match spec_decode(self.span_bytes(self.data)) {
            Some(cs) => Some(
                if self.convert_null || self.token == TokenType::TextToken {
                    nul_replaced(cs)
                } else {
                    cs
                },
            ),
            None => None,
        }
    }

    /// The lowercase name that `tag_name` gives for the current tag.
    pub closed spec fn spec_tag_name(&self) -> Option<Seq<char>> {
        match spec_decode(self.span_bytes(self.data)) {
            Some(cs) => Some(spec_to_lowercase(cs)),
            None => None,
        }
    }

    /// The lowercase key and the value of attribute `i` of the current tag.
    pub closed spec fn spec_attr(&self, i: int) -> Option<(Seq<char>, Seq<char>)> {
        let a = self.attribute@[i];
        match (spec_decode(self.span_bytes(a.0)), spec_decode(self.span_bytes(a.1))) {
            (Some(k), Some(v)) => Some((spec_to_lowercase(k), v)),
            _ => None,
        }
    }

    /// The lowercase key of attribute `i` of the current tag.
    pub open spec fn spec_attr_key(&self, i: int) -> Seq<char> {
        match self.spec_attr(i) {
            Some((k, _)) => k,
            None => Seq::<char>::empty(),
        }
    }

    /// The value of attribute `i` of the current tag.
    pub open spec fn spec_attr_value(&self, i: int) -> Seq<char> {
        match self.spec_attr(i) {
            Some((_, v)) => v,
            None => Seq::<char>::empty(),
        }
    }

    /// Whether the current token has data that `text`, `tag_name` or `token` have not
    /// handed out yet.
    pub open spec fn spec_has_data(&self) -> bool {
        self.spec_data_range().0 < self.spec_data_range().1
    }

    /// How many attributes of the current tag are left to hand out.
    pub closed spec fn spec_attr_range(&self) -> (int, int) {
        (self.number_attribute_returned as int, self.attribute@.len() as int)
    }

    /// Whether NUL characters of the current token's data become U+FFFD in `text` besides
    /// those of text tokens.
    pub closed spec fn spec_nul_converted(&self) -> bool {
        self.convert_null
    }

    /// What `text`, `tag_name` and `tag_attr` give, from the input: the data of the token
    /// decoded (NUL characters of text replaced), the tag name decoded and in lowercase, and
    /// each attribute's key decoded and in lowercase with its value decoded.
    pub proof fn lemma_token_data(&self)
        requires
            self.wf(),
        ensures
            ({
                let (ds, de) = self.spec_data_range();
                &&& 0 <= ds <= de <= self.spec_buffer().len()
                &&& self.spec_text() == match spec_decode(self.spec_buffer().subrange(ds, de)) {
                    Some(cs) => Some(
                        if self.spec_token() == TokenType::TextToken || self.spec_nul_converted() {
                            nul_replaced(cs)
                        } else {
                            cs
                        },
                    ),
                    None => None,
                }
                &&& self.spec_tag_name() == lowercase_name(self.spec_buffer().subrange(ds, de))
            }),
            self.spec_attr_spans().len() == self.spec_attr_range().1,
            0 <= self.spec_attr_range().0 <= self.spec_attr_range().1,
            forall|i: int|
                0 <= i < self.spec_attr_spans().len() ==> {
                    let ((ks, ke), (vs, ve)) = #[trigger] self.spec_attr_spans()[i];
                    &&& 0 <= ks <= ke <= self.spec_buffer().len() && 0 <= vs <= ve <= self.spec_buffer().len()
                    &&& self.spec_attr(i) == match (
                        spec_decode(self.spec_buffer().subrange(ks, ke)),
                        spec_decode(self.spec_buffer().subrange(vs, ve)),
                    ) {
                        (Some(k), Some(v)) => Some((spec_to_lowercase(k), v)),
                        _ => None,
                    }
                },
    {
        assert forall|i: int| 0 <= i < self.spec_attr_spans().len() implies {
            let ((ks, ke), (vs, ve)) = #[trigger] self.spec_attr_spans()[i];
            &&& 0 <= ks <= ke <= self.spec_buffer().len() && 0 <= vs <= ve <= self.spec_buffer().len()
            &&& self.spec_attr(i) == match (
                spec_decode(self.spec_buffer().subrange(ks, ke)),
                spec_decode(self.spec_buffer().subrange(vs, ve)),
            ) {
                (Some(k), Some(v)) => Some((spec_to_lowercase(k), v)),
                _ => None,
            }
        } by {
            assert(Self::attr_in(self.attribute@[i], self.buffer@.len()));
        }
    }

    /// An empty data range decodes to nothing: after its data are handed out, a token gives
    /// an empty text.
    pub proof fn lemma_empty_data(&self)
        requires
            self.spec_data_range().0 == self.spec_data_range().1,
            0 <= self.spec_data_range().0 <= self.spec_buffer().len(),
        ensures
            self.spec_text() == Some(Seq::<char>::empty()),
    {
        let b = self.buffer@.subrange(self.data.start as int, self.data.end as int);
        assert(b =~= Seq::<u8>::empty());
        assert(valid_utf8(b));
        assert(decode_utf8(b) =~= Seq::<char>::empty());
        assert(nul_replaced(Seq::<char>::empty()) =~= Seq::<char>::empty());
    }

    /// `b` is `a` once the data of the current token are handed out.
    pub closed spec fn data_taken(a: Tokenizer, b: Tokenizer) -> bool {
        b == (Tokenizer { data: Span { start: a.raw.end, end: a.raw.end }, ..a })
    }

    /// The text of a text, comment or doctype token.
    pub fn text(&mut self) -> (res: Result<Option<String>, HtmlParseError>)
        requires
            old(self).wf(),
        ensures
            final(self).wf(),
            if is_text_like(old(self).spec_token()) {
                match old(self).spec_text() {
                    Some(t) => res matches Ok(Some(s)) && s@ == t && data_handed_out(*old(self), *final(self))
                        && Self::data_taken(
                        *old(self),
                        *final(self),
                    ),
                    None => res is Err && *final(self) == *old(self),
                }
            } else {
                res matches Ok(None) && *final(self) == *old(self)
            },
    {
        if self.token == TokenType::TextToken || self.token == TokenType::CommentToken || self.token
            == TokenType::DoctypeToken {
            let bytes = copy_range(&self.buffer, self.data.start, self.data.end);
            let s = match string_from_utf8(bytes) {
                Ok(s) => s,
                Err(e) => return Err(HtmlParseError::FromUtf8Error(e)),
            };
            self.data.start = self.raw.end;
            self.data.end = self.raw.end;
            let s = if self.convert_null || self.token == TokenType::TextToken {
                replace_nul(&s)
            } else {
                s
            };
            Ok(Some(s))
        } else {
            Ok(None)
        }
    }

    /// The lowercase name of a tag token, and whether it has attributes left to read.
    pub fn tag_name(&mut self) -> (res: Result<(Option<String>, bool), HtmlParseError>)
        requires
            old(self).wf(),
        ensures
            final(self).wf(),
            final(self).spec_buffer() == old(self).spec_buffer(),
            final(self).spec_raw_start() == old(self).spec_raw_start(),
            final(self).spec_raw_end() == old(self).spec_raw_end(),
            final(self).spec_token() == old(self).spec_token(),
            final(self).spec_err() == old(self).spec_err(),
            final(self).spec_max_buffer() == old(self).spec_max_buffer(),
            final(self).spec_raw_tag_name() == old(self).spec_raw_tag_name(),
            final(self).spec_raw_tag_bytes() == old(self).spec_raw_tag_bytes(),
            final(self).spec_allow_cdata() == old(self).spec_allow_cdata(),
            if old(self).spec_has_data() && is_tag(old(self).spec_token()) {
                match old(self).spec_tag_name() {
                    Some(n) => res matches Ok((Some(s), more)) && s@ == n && more == (
                    old(self).spec_attr_range().0 < old(self).spec_attr_range().1)
                        && Self::data_taken(*old(self), *final(self)) && data_handed_out(*old(self), *final(self)),
                    None => res is Err && *final(self) == *old(self),
                }
            } else {
                res matches Ok((None, false)) && *final(self) == *old(self)
            },
    {
        if self.data.start < self.data.end && (self.token == TokenType::StartTagToken || self.token
            == TokenType::EndTagToken || self.token == TokenType::SelfClosingTagToken) {
            let bytes = copy_range(&self.buffer, self.data.start, self.data.end);
            let s = match string_from_utf8(bytes) {
                Ok(s) => s,
                Err(e) => return Err(HtmlParseError::FromUtf8Error(e)),
            };
            self.data.start = self.raw.end;
            self.data.end = self.raw.end;
            let lower = to_lowercase(s.as_str());
            return Ok((Some(lower), self.number_attribute_returned < self.attribute.len()));
        }
        Ok((None, false))
    }

    /// The next attribute of a start tag: its lowercase key, its value, and whether more follow.
    pub fn tag_attr(&mut self) -> (res: Result<(Option<String>, Option<String>, bool), HtmlParseError>)
        requires
            old(self).wf(),
        ensures
            final(self).wf(),
            if old(self).spec_attr_range().0 < old(self).spec_attr_range().1 && (old(self).spec_token()
                == TokenType::StartTagToken || old(self).spec_token() == TokenType::SelfClosingTagToken) {
                &&& *final(self) == old(self).with_next_attr()
                &&& same_token(*old(self), *final(self))
                &&& final(self).spec_data_range() == old(self).spec_data_range()
                &&& final(self).spec_attr_range() == (old(self).spec_attr_range().0 + 1, old(self).spec_attr_range().1)
                &&& match old(self).spec_attr(old(self).spec_attr_range().0) {
                    Some((k, v)) => res matches Ok((Some(ks), Some(vs), more)) && ks@ == k && vs@
                        == v && more == (old(self).spec_attr_range().0 + 1
                        < old(self).spec_attr_range().1),
                    None => res is Err,
                }
            } else {
                res matches Ok((None, None, false)) && *final(self) == *old(self)
            },
    {
        if self.number_attribute_returned < self.attribute.len() && (self.token
            == TokenType::StartTagToken || self.token == TokenType::SelfClosingTagToken) {
            let attr = self.attribute[self.number_attribute_returned];
            self.number_attribute_returned = self.number_attribute_returned + 1;
            assert(Self::attr_in(self.attribute@[old(self).number_attribute_returned as int], self.buffer@.len()));
            let key_bytes = copy_range(&self.buffer, attr.0.start, attr.0.end);
            let val_bytes = copy_range(&self.buffer, attr.1.start, attr.1.end);
            let key = match string_from_utf8(key_bytes) {
                Ok(s) => s,
                Err(e) => return Err(HtmlParseError::FromUtf8Error(e)),
            };
            let val = match string_from_utf8(val_bytes) {
                Ok(s) => s,
                Err(e) => return Err(HtmlParseError::FromUtf8Error(e)),
            };
            let lower = to_lowercase(key.as_str());
            return Ok((Some(lower), Some(val), self.number_attribute_returned < self.attribute.len()));
        }
        Ok((None, None, false))
    }

    /// Reads the next token and gives its type. A tag runs from `<` and a letter (`</` and a
    /// letter for an end tag) up to `>`; a comment or a doctype starts with `<` and `/`, `!` or
    /// `?`; outside raw text elements, text holds no markup and ends where markup starts; the
    /// text of a raw text element ends at its end tag, that of `plaintext` at the end of the input.
    #[verifier::rlimit(80)]
    #[verifier::spinoff_prover]
    pub fn next(&mut self) -> (res: TokenType)
        requires
            old(self).wf(),
        ensures
            final(self).wf(),
            res == final(self).spec_token(),
            final(self).spec_buffer() == old(self).spec_buffer(),
            final(self).spec_raw_start() == old(self).spec_raw_end(),
            final(self).spec_max_buffer() == old(self).spec_max_buffer(),
            final(self).spec_allow_cdata() == old(self).spec_allow_cdata(),
            res != TokenType::NoneToken,
            old(self).spec_err() is None && old(self).spec_max_buffer() > 0 && final(self).spec_err() is None
                ==> final(self).spec_raw_end() - final(self).spec_raw_start() < old(self).spec_max_buffer(),
            ({
                let b = old(self).spec_buffer();
                let s = old(self).spec_raw_end();
                let m = old(self).spec_max_buffer();
                old(self).spec_err() is None && old(self).spec_raw_tag_name().len() == 0 && m > 0 && s + m <= b.len()
                    && (forall|i: int| s <= i < s + m ==> !#[trigger] markup_at(b, i)) ==> {
                    &&& res == TokenType::TextToken
                    &&& final(self).spec_err() == Some(ErrorKind::MaxBufferError)
                    &&& final(self).spec_raw_end() == s + m
                    &&& final(self).spec_data_range() == (s, s + m)
                }
            }),
            old(self).spec_err() is None && final(self).spec_err() == Some(ErrorKind::MaxBufferError)
                ==> old(self).spec_max_buffer() > 0 && final(self).spec_raw_end() - final(self).spec_raw_start()
                >= old(self).spec_max_buffer(),
            res == TokenType::ErrorToken ==> final(self).spec_err() is Some,
            res != TokenType::ErrorToken ==> final(self).spec_raw_start() < final(self).spec_raw_end(),
            old(self).spec_err() is None && old(self).spec_raw_end() == old(self).spec_buffer().len() ==> res
                == TokenType::ErrorToken && final(self).spec_err() == Some(ErrorKind::EOFError),
            old(self).spec_err() is None && old(self).spec_max_buffer() == 0 ==> final(self).spec_err() is None
                || final(self).spec_err() == Some(ErrorKind::EOFError),
            old(self).spec_err() is None && old(self).spec_raw_tag_name().len() == 0 && old(self).spec_raw_end()
                < old(self).spec_buffer().len() && !markup_at(old(self).spec_buffer(), old(self).spec_raw_end()) ==> res
                == TokenType::TextToken,
            res == TokenType::TextToken && (old(self).spec_raw_tag_name().len() > 0 || !markup_at(
                old(self).spec_buffer(),
                old(self).spec_raw_end(),
            )) ==> final(self).spec_data_range() == (final(self).spec_raw_start(), final(self).spec_raw_end()),
            ({
                let b = old(self).spec_buffer();
                let s = old(self).spec_raw_end();
                old(self).spec_err() is None && old(self).spec_raw_tag_name().len() == 0 && old(self).spec_max_buffer()
                    == 0 && s + 2 < b.len() && b[s] == 60u8 && b[s + 1] == 47u8 && b[s + 2] == 62u8 ==> res
                    == TokenType::CommentToken && final(self).spec_raw_end() == s + 3 && final(self).spec_data_range()
                    == (s, s)
            }),
            ({
                let b = old(self).spec_buffer();
                let s = old(self).spec_raw_end();
                let m = old(self).spec_max_buffer();
                old(self).spec_err() is None && old(self).spec_raw_tag_name().len() == 0 && (m == 0 || comment_of(
                    b,
                    s + 4,
                ).0 - s < m) && s + 3 < b.len() && is_comment_open(b, s) ==> {
                    let (r, e, c) = comment_of(b, s + 4);
                    &&& res == TokenType::CommentToken
                    &&& final(self).spec_raw_end() == r
                    &&& final(self).spec_data_range() == (s + 4, e)
                    &&& (final(self).spec_err() is None <==> c)
                    &&& !c ==> final(self).spec_err() == Some(ErrorKind::EOFError)
                }
            }),
            old(self).spec_err() is Some ==> res == TokenType::ErrorToken && final(self).spec_raw_end()
                == final(self).spec_raw_start() && final(self).spec_err_value()
                == old(self).spec_err_value() && final(self).spec_raw_tag_name() == old(self).spec_raw_tag_name(),
            old(self).spec_raw_tag_name() == seq!['p', 'l', 'a', 'i', 'n', 't', 'e', 'x', 't']
                ==> final(self).spec_raw_tag_name() == old(self).spec_raw_tag_name(),
            old(self).spec_err() is None && old(self).spec_raw_tag_name() != seq![
                'p',
                'l',
                'a',
                'i',
                'n',
                't',
                'e',
                'x',
                't',
            ] && res != TokenType::StartTagToken && res != TokenType::SelfClosingTagToken
                ==> final(self).spec_raw_tag_name().len() == 0,
            res == TokenType::StartTagToken || res == TokenType::SelfClosingTagToken
                ==> (final(self).spec_raw_tag_name().len() > 0 <==> is_raw_text_name(
                final(self).spec_buffer().subrange(final(self).spec_data_range().0, final(self).spec_data_range().1),
            )),
            res == TokenType::CommentToken || res == TokenType::DoctypeToken ==> !final(self).spec_nul_converted(),
            final(self).spec_err() == Some(ErrorKind::EOFError) ==> final(self).spec_raw_end()
                == final(self).spec_buffer().len(),
            ({
                let b = final(self).spec_buffer();
                let s = final(self).spec_raw_start();
                let e = final(self).spec_raw_end();
                &&& res == TokenType::StartTagToken || res == TokenType::SelfClosingTagToken ==> {
                    &&& b[s] == 60u8 && is_letter(b[s + 1])
                    &&& b[e - 1] == 62u8
                    &&& (res == TokenType::SelfClosingTagToken <==> b[e - 2] == 47u8)
                }
                &&& res == TokenType::EndTagToken ==> {
                    &&& b[s] == 60u8 && b[s + 1] == 47u8 && is_letter(b[s + 2])
                    &&& b[e - 1] == 62u8
                }
                &&& res == TokenType::CommentToken ==> b[s] == 60u8 && (b[s + 1] == 47u8 || b[s + 1]
                    == 33u8 || b[s + 1] == 63u8)
                &&& res == TokenType::DoctypeToken ==> b[s] == 60u8 && b[s + 1] == 33u8
                &&& (res == TokenType::CommentToken || res == TokenType::DoctypeToken)
                    && final(self).spec_err() is None ==> b[e - 1] == 62u8
                &&& res == TokenType::TextToken && old(self).spec_raw_tag_name().len() == 0
                    && !markup_at(b, s) ==> {
                    &&& final(self).spec_err() != Some(ErrorKind::MaxBufferError) ==> forall|i: int|
                        s <= i < e ==> !#[trigger] markup_at(b, i)
                    &&& final(self).spec_err() is None ==> markup_at(b, e)
                }
                &&& res == TokenType::TextToken && old(self).spec_raw_tag_name().len() == 0 && markup_at(b, s)
                    && final(self).spec_err() is None ==> b[s + 1] == 33u8 && b[e - 1] == 62u8
                &&& res == TokenType::TextToken && old(self).spec_raw_tag_bytes().len() > 0
                    && final(self).spec_err() is None ==> end_tag_at(b, e, old(self).spec_raw_tag_bytes())
                &&& res == TokenType::TextToken && old(self).spec_raw_tag_name()
                    == seq!['p', 'l', 'a', 'i', 'n', 't', 'e', 'x', 't'] ==> final(self).spec_err() is Some
            }),
            ({
                let b = old(self).spec_buffer();
                let s = old(self).spec_raw_end();
                let e = raw_text_end(b, s, old(self).spec_raw_tag_bytes());
                old(self).spec_err() is None && old(self).spec_max_buffer() == 0 && old(self).spec_raw_tag_bytes().len()
                    > 0 && old(self).spec_raw_tag_name() != seq!['s', 'c', 'r', 'i', 'p', 't']
                    && old(self).spec_raw_tag_name() != seq!['p', 'l', 'a', 'i', 'n', 't', 'e', 'x', 't'] && s < e ==> {
                    &&& res == TokenType::TextToken
                    &&& final(self).spec_raw_end() == e
                    &&& final(self).spec_data_range() == (s, e)
                    &&& (final(self).spec_err() is None <==> e < b.len())
                }
            }),
            ({
                let b = old(self).spec_buffer();
                let s = old(self).spec_raw_end();
                old(self).spec_err() is None && old(self).spec_raw_tag_name().len() == 0 && old(self).spec_max_buffer()
                    == 0 && s + 1 < b.len() && b[s] == 60u8 && is_letter(b[s + 1]) ==> match tag_after_name(b, s + 2) {
                    Some((attrs, close)) => {
                        &&& res == TokenType::StartTagToken || res == TokenType::SelfClosingTagToken
                        &&& final(self).spec_err() is None
                        &&& final(self).spec_raw_end() == close + 1
                        &&& final(self).spec_data_range() == (s + 1, scan_stop(b, s + 2, ScanMode::Name))
                        &&& final(self).spec_attr_spans() == attrs
                        &&& final(self).spec_attr_range() == (0int, attrs.len() as int)
                    },
                    None => res == TokenType::ErrorToken,
                }
            }),
            ({
                let b = old(self).spec_buffer();
                let s = old(self).spec_raw_end();
                old(self).spec_err() is None && old(self).spec_raw_tag_name().len() == 0 && old(self).spec_max_buffer()
                    == 0 && s + 9 <= b.len() && b[s] == 60u8 && b[s + 1] == 33u8 && !(b[s + 2] == 45u8 && b[s + 3]
                    == 45u8) ==> {
                    &&& doctype_at(b, s + 2) ==> res == TokenType::DoctypeToken && {
                        let w = scan_stop(b, s + 9, ScanMode::Ws);
                        if w >= b.len() {
                            &&& final(self).spec_err() == Some(ErrorKind::EOFError)
                            &&& final(self).spec_raw_end() == b.len()
                            &&& final(self).spec_data_range() == (b.len() as int, b.len() as int)
                        } else {
                            &&& final(self).spec_data_range().0 == w
                            &&& (final(self).spec_data_range().1, final(self).spec_raw_end()) == close_angle_from(b, w)
                        }
                    }
                    &&& !doctype_at(b, s + 2) && cdata_at(b, s + 2) && old(self).spec_allow_cdata() ==> {
                        &&& res == TokenType::TextToken
                        &&& final(self).spec_data_range().0 == s + 9
                        &&& forall|z: int|
                            cdata_open_up_to(b, s + 9, z) && #[trigger] cdata_closes_at(b, s + 9, z)
                                ==> final(self).spec_err() is None && final(self).spec_raw_end() == z + 1
                                && final(self).spec_data_range().1 == z - 2
                        &&& cdata_open_up_to(b, s + 9, b.len() as int) ==> final(self).spec_err() == Some(
                            ErrorKind::EOFError,
                        ) && final(self).spec_raw_end() == b.len() && final(self).spec_data_range().1 == b.len()
                    }
                    &&& !doctype_at(b, s + 2) && !(cdata_at(b, s + 2) && old(self).spec_allow_cdata()) ==> {
                        &&& res == TokenType::CommentToken
                        &&& final(self).spec_data_range().0 == s + 2
                        &&& (final(self).spec_data_range().1, final(self).spec_raw_end()) == close_angle_from(b, s + 2)
                    }
                }
            }),
            ({
                let b = old(self).spec_buffer();
                let s = old(self).spec_raw_end();
                old(self).spec_err() is None && old(self).spec_raw_tag_name().len() == 0 && old(self).spec_max_buffer()
                    == 0 && s + 2 < b.len() && b[s] == 60u8 && ((b[s + 1] == 47u8 && !is_letter(b[s + 2]) && b[s + 2]
                    != 62u8) || b[s + 1] == 63u8) ==> {
                    let from = if b[s + 1] == 47u8 {
                        s + 2
                    } else {
                        s + 1
                    };
                    &&& res == TokenType::CommentToken
                    &&& final(self).spec_data_range().0 == from
                    &&& (final(self).spec_data_range().1, final(self).spec_raw_end()) == close_angle_from(b, from)
                }
            }),
            forall|q: int|
                #![trigger plain_up_to(old(self).spec_buffer(), old(self).spec_raw_end() + 2, q)]
                old(self).spec_err() is None && old(self).spec_raw_tag_name().len() == 0 && old(self).spec_max_buffer()
                    == 0 && old(self).spec_buffer()[old(self).spec_raw_end()] == 60u8 && is_letter(
                    old(self).spec_buffer()[old(self).spec_raw_end() + 1],
                ) && plain_up_to(old(self).spec_buffer(), old(self).spec_raw_end() + 2, q) ==> (res
                    == TokenType::StartTagToken || res == TokenType::SelfClosingTagToken) && final(self).spec_raw_end()
                    == q + 1 && final(self).spec_err() is None,
            forall|q: int|
                #![trigger plain_up_to(old(self).spec_buffer(), old(self).spec_raw_end() + 3, q)]
                old(self).spec_err() is None && old(self).spec_raw_tag_name().len() == 0 && old(self).spec_max_buffer()
                    == 0 && old(self).spec_buffer()[old(self).spec_raw_end()] == 60u8 && old(self).spec_buffer()[
                    old(self).spec_raw_end() + 1
                ] == 47u8 && is_letter(old(self).spec_buffer()[old(self).spec_raw_end() + 2]) && plain_up_to(
                    old(self).spec_buffer(),
                    old(self).spec_raw_end() + 3,
                    q,
                ) ==> res == TokenType::EndTagToken && final(self).spec_raw_end() == q + 1 && final(self).spec_err() is None,
            forall|q: int, n: int|
                #![trigger plain_up_to(old(self).spec_buffer(), old(self).spec_raw_end() + 2, q), name_ends_at(old(self).spec_buffer(), old(self).spec_raw_end() + 2, n)]
                old(self).spec_err() is None && old(self).spec_raw_tag_name().len() == 0 && old(self).spec_max_buffer()
                    == 0 && old(self).spec_buffer()[old(self).spec_raw_end()] == 60u8 && is_letter(
                    old(self).spec_buffer()[old(self).spec_raw_end() + 1],
                ) && plain_up_to(old(self).spec_buffer(), old(self).spec_raw_end() + 2, q) && name_ends_at(
                    old(self).spec_buffer(),
                    old(self).spec_raw_end() + 2,
                    n,
                ) ==> {
                    &&& final(self).spec_has_data()
                    &&& final(self).spec_tag_name() == lowercase_name(
                        old(self).spec_buffer().subrange(old(self).spec_raw_end() + 1, n),
                    )
                    &&& final(self).spec_raw_tag_name().len() > 0 ==> is_raw_text_name(
                        old(self).spec_buffer().subrange(old(self).spec_raw_end() + 1, n),
                    )
                    &&& is_raw_text_name(old(self).spec_buffer().subrange(old(self).spec_raw_end() + 1, n))
                        ==> lowered_is(
                        old(self).spec_buffer().subrange(old(self).spec_raw_end() + 1, n),
                        final(self).spec_raw_tag_bytes(),
                    )
                },
    {
        proof {
            if raw_tag_chars(self.raw_tag) == seq!['p', 'l', 'a', 'i', 'n', 't', 'e', 'x', 't'] {
                lemma_plaintext_name(self.raw_tag);
            }
        }
        let ghost s0 = self.raw.end as int;
        let ghost b0 = self.buffer@;
        let ghost opens_tag = self.raw_tag == RawTag::NoRaw && self.err is None && self.max_buffer == 0 && s0 + 1
            < b0.len() && b0[s0] == 60u8 && is_letter(b0[s0 + 1]) && plain_rest(b0, s0 + 2);
        let ghost opens_any = self.raw_tag == RawTag::NoRaw && self.err is None && self.max_buffer == 0 && s0 + 1
            < b0.len() && b0[s0] == 60u8 && is_letter(b0[s0 + 1]);
        let ghost closes_tag = self.raw_tag == RawTag::NoRaw && self.err is None && self.max_buffer == 0 && s0 + 2
            < b0.len() && b0[s0] == 60u8 && b0[s0 + 1] == 47u8 && is_letter(b0[s0 + 2]) && plain_rest(b0, s0 + 3);
        let ghost first_markup = self.raw_tag == RawTag::NoRaw && self.err is None && self.max_buffer == 0 && s0 + 2
            < b0.len() && markup_at(b0, s0);
        let ghost opens_comment = self.raw_tag == RawTag::NoRaw && self.err is None && s0 + 3 < b0.len()
            && is_comment_open(b0, s0) && (self.max_buffer == 0 || comment_of(b0, s0 + 4).0 - s0 < self.max_buffer);
        proof {
            if s0 + 4 <= b0.len() {
                lemma_comment_scan_reaches(b0, s0 + 4, 2);
            }
        }
        let ghost first_text = self.raw_tag == RawTag::NoRaw && self.err is None && s0 < b0.len() && !markup_at(
            b0,
            s0,
        );
        let ghost clean = self.err is None && self.max_buffer == 0;
        let ghost limit = self.spec_err() is None && self.spec_raw_tag_name().len() == 0 && self.spec_max_buffer() > 0 && s0
            + self.spec_max_buffer() <= b0.len() && forall|i: int|
            s0 <= i < s0 + self.spec_max_buffer() ==> !#[trigger] markup_at(b0, i);
        let ghost raw_text = self.spec_err() is None && self.spec_max_buffer() == 0 && self.spec_raw_tag_bytes().len()
            > 0 && self.spec_raw_tag_name() != seq!['s', 'c', 'r', 'i', 'p', 't'] && self.spec_raw_tag_name() != seq![
            'p',
            'l',
            'a',
            'i',
            'n',
            't',
            'e',
            'x',
            't',
        ] && s0 < raw_text_end(b0, s0, self.spec_raw_tag_bytes());
        self.raw.start = self.raw.end;
        self.data.start = self.raw.end;
        self.data.end = self.raw.end;
        if self.err.is_some() {
            self.token = TokenType::ErrorToken;
            return self.token;
        }
        if self.raw_tag != RawTag::NoRaw {
            if self.raw_tag == RawTag::Plaintext {
                while self.err.is_none()
                    invariant
                        self.inv(),
                        self.buffer@ == old(self).buffer@,
                        self.raw.start == old(self).raw.end,
                        self.max_buffer == old(self).max_buffer,
                        self.allow_cdata == old(self).allow_cdata,
                        self.data.start == self.raw.start,
                        old(self).err is None,
                        clean == (old(self).err is None && old(self).max_buffer == 0),
                        clean ==> self.err is None || err_kind(self.err) == Some(ErrorKind::EOFError),
                        old(self).raw.end == old(self).buffer@.len() ==> self.raw.end == self.buffer@.len(),
                        Self::len_ok(*self),
                        self.raw_tag == old(self).raw_tag,
                    decreases self.buffer@.len() - self.raw.end + (if self.err is None {
                        1int
                    } else {
                        0int
                    }),
                {
                    self.read_byte();
                }
                self.data.end = self.raw.end;
                self.text_is_raw = true;
            } else {
                self.read_raw_or_cdata();
            }
            if self.data.end > self.data.start {
                self.token = TokenType::TextToken;
                self.convert_null = true;
                return self.token;
            }
        }
        assert(!raw_text);
        self.text_is_raw = false;
        self.convert_null = false;
        loop
            invariant_except_break
                opens_tag ==> self.raw.end == self.raw.start,
                opens_any ==> self.raw.end == self.raw.start,
                limit ==> self.raw.end < s0 + self.max_buffer,
                closes_tag ==> self.raw.end == self.raw.start,
                first_markup ==> self.raw.end == self.raw.start,
                opens_comment ==> self.raw.end == self.raw.start,
                old(self).raw_tag == RawTag::NoRaw ==> self.err is None,
                old(self).raw_tag == RawTag::Plaintext ==> self.err is Some,
                raw_tag_chars(old(self).raw_tag) == seq!['p', 'l', 'a', 'i', 'n', 't', 'e', 'x', 't']
                    ==> old(self).raw_tag == RawTag::Plaintext,
                old(self).raw_tag != RawTag::NoRaw && self.err is None ==> self.raw.end == self.raw.start
                    && end_tag_at(self.buffer@, self.raw.start as int, raw_tag_bytes(old(self).raw_tag)),
                old(self).raw_tag == RawTag::NoRaw ==> forall|i: int|
                    self.raw.start <= i < self.raw.end ==> !#[trigger] markup_at(self.buffer@, i),
            invariant
                opens_tag == (old(self).raw_tag == RawTag::NoRaw && old(self).err is None && old(self).max_buffer
                    == 0 && s0 + 1 < b0.len() && b0[s0] == 60u8 && is_letter(b0[s0 + 1]) && plain_rest(b0, s0 + 2)),
                opens_any == (old(self).raw_tag == RawTag::NoRaw && old(self).err is None && old(self).max_buffer
                    == 0 && s0 + 1 < b0.len() && b0[s0] == 60u8 && is_letter(b0[s0 + 1])),
                s0 == old(self).raw.end,
                b0 == old(self).buffer@,
                first_markup == (old(self).raw_tag == RawTag::NoRaw && old(self).err is None && old(self).max_buffer
                    == 0 && s0 + 2 < b0.len() && markup_at(b0, s0)),
                first_text == (old(self).raw_tag == RawTag::NoRaw && old(self).err is None && s0 < b0.len()
                    && !markup_at(b0, s0)),
                first_text ==> self.raw.end == self.raw.start || self.raw.end > self.raw.start,
                opens_comment == (old(self).raw_tag == RawTag::NoRaw && old(self).err is None && s0 + 3 < b0.len()
                    && is_comment_open(b0, s0) && (old(self).max_buffer == 0 || comment_of(b0, s0 + 4).0 - s0
                    < old(self).max_buffer)),
                opens_comment ==> comment_of(b0, s0 + 4).0 >= s0 + 4,
                clean == (old(self).err is None && old(self).max_buffer == 0),
                clean ==> self.err is None || err_kind(self.err) == Some(ErrorKind::EOFError),
                old(self).raw.end == b0.len() ==> self.raw.end == b0.len(),
                Self::len_ok(*self),
                !raw_text,
                limit == (old(self).spec_err() is None && old(self).spec_raw_tag_name().len() == 0
                    && old(self).spec_max_buffer() > 0 && s0 + old(self).spec_max_buffer() <= b0.len() && forall|i: int|
                    s0 <= i < s0 + old(self).spec_max_buffer() ==> !#[trigger] markup_at(b0, i)),
                raw_text == (old(self).spec_err() is None && old(self).spec_max_buffer() == 0
                    && old(self).spec_raw_tag_bytes().len() > 0 && old(self).spec_raw_tag_name() != seq![
                    's',
                    'c',
                    'r',
                    'i',
                    'p',
                    't',
                ] && old(self).spec_raw_tag_name() != seq!['p', 'l', 'a', 'i', 'n', 't', 'e', 'x', 't']
                    && s0 < raw_text_end(b0, s0, old(self).spec_raw_tag_bytes())),
                old(self).raw_tag == RawTag::NoRaw ==> self.raw_tag == RawTag::NoRaw,
                old(self).raw_tag != RawTag::Plaintext ==> self.raw_tag == RawTag::NoRaw,
                old(self).raw_tag == RawTag::Plaintext ==> self.raw_tag == RawTag::Plaintext,
                !self.convert_null,
                closes_tag == (old(self).raw_tag == RawTag::NoRaw && old(self).err is None && old(self).max_buffer
                    == 0 && s0 + 2 < b0.len() && b0[s0] == 60u8 && b0[s0 + 1] == 47u8 && is_letter(b0[s0 + 2])
                    && plain_rest(b0, s0 + 3)),
                self.inv(),
                old(self).err is None,
                self.buffer@ == old(self).buffer@,
                self.raw.start == old(self).raw.end,
                self.max_buffer == old(self).max_buffer,
                self.allow_cdata == old(self).allow_cdata,
                self.data.start == self.raw.start,
                self.data.end == self.raw.start,
            ensures
                self.err is Some,
                !opens_tag,
                !opens_any,
                !closes_tag,
                !first_markup,
                !opens_comment,
                clean ==> err_kind(self.err) == Some(ErrorKind::EOFError),
                old(self).raw.end == b0.len() ==> err_kind(self.err) == Some(ErrorKind::EOFError),
                first_text ==> self.raw.end > self.raw.start,
                limit ==> err_kind(self.err) == Some(ErrorKind::MaxBufferError) && self.raw.end == s0 + self.max_buffer,
                old(self).raw_tag == RawTag::NoRaw && err_kind(self.err) != Some(
                    ErrorKind::MaxBufferError,
                ) && !markup_at(self.buffer@, self.raw.start as int) ==> forall|i: int|
                    self.raw.start <= i < self.raw.end ==> !#[trigger] markup_at(self.buffer@, i),
            decreases self.buffer@.len() - self.raw.end,
        {
            let byte = self.read_byte();
            if self.err.is_some() {
                break;
            }
            if byte != 60u8 {
                continue;
            }
            let byte = self.read_byte();
            if self.err.is_some() {
                assert(err_kind(self.err) == Some(ErrorKind::EOFError) ==> !markup_at(
                    self.buffer@,
                    self.raw.end - 1,
                ));
                break;
            }
            let kind: u8 = if is_ascii_letter(byte) {
                0
            } else if byte == 47u8 {
                1
            } else if byte == 33u8 || byte == 63u8 {
                2
            } else {
                self.raw.end = self.raw.end - 1;
                continue;
            };
            proof {
                if limit {
                    assert(markup_at(b0, self.raw.end - 2));
                }
            }
            let x = self.raw.end - 2;
            if self.raw.start < x {
                self.raw.end = x;
                self.data.end = x;
                self.token = TokenType::TextToken;
                return self.token;
            }
            if kind == 0 {
                self.token = self.read_start_tag();
                proof {
                    if opens_tag {
                        assert forall|q: int| #[trigger] plain_up_to(b0, s0 + 2, q) implies close_of(b0, s0 + 2) == q by {
                            lemma_close_of(b0, s0 + 2, s0 + 2, q);
                        }
                        assert forall|n: int| #[trigger] name_ends_at(b0, s0 + 2, n) implies n == self.data.end by {
                            lemma_name_end_unique(b0, s0 + 2, n, self.data.end as int);
                        }
                        assert(self.data.start == s0 + 1);
                        assert(self.spec_has_data());
                        assert(self.spec_tag_name() == lowercase_name(b0.subrange(s0 + 1, self.data.end as int)));
                        assert(self.raw_tag != RawTag::NoRaw ==> is_raw_text_name(b0.subrange(s0 + 1, self.data.end as int)));
                    }
                }
                return self.token;
            } else if kind == 1 {
                let end_byte = self.read_byte();
                if self.err.is_some() {
                    break;
                }
                if end_byte == 62u8 {
                    self.token = TokenType::CommentToken;
                    return self.token;
                }
                if is_ascii_letter(end_byte) {
                    self.read_tag(false);
                    proof {
                        if closes_tag {
                            assert forall|q: int| #[trigger] plain_up_to(b0, s0 + 3, q) implies close_of(b0, s0 + 3)
                                == q by {
                                lemma_close_of(b0, s0 + 3, s0 + 3, q);
                            }
                        }
                    }
                    if self.err.is_some() {
                        self.token = TokenType::ErrorToken;
                    } else {
                        self.token = TokenType::EndTagToken;
                    }
                    return self.token;
                }
                self.raw.end = self.raw.end - 1;
                self.read_until_close_angle();
                self.token = TokenType::CommentToken;
                return self.token;
            } else {
                if byte == 33u8 {
                    self.token = self.read_markup_declaration();
                    if self.token == TokenType::TextToken {
                        self.convert_null = true;
                    }
                    return self.token;
                }
                self.raw.end = self.raw.end - 1;
                self.read_until_close_angle();
                self.token = TokenType::CommentToken;
                return self.token;
            }
        }
        if self.raw.start < self.raw.end {
            self.data.end = self.raw.end;
            self.token = TokenType::TextToken;
            return self.token;
        }
        self.token = TokenType::ErrorToken;
        self.token
    }

    /// The attributes of the current tag from `from` on, as `token` gives them.
    pub open spec fn attrs_match(&self, attrs: Seq<Attribute>, from: int) -> bool {
        &&& attrs.len() == self.spec_attr_range().1 - from
        &&& forall|j: int| 0 <= j < attrs.len() ==> {
            &&& self.spec_attr(from + j) is Some
            &&& (#[trigger] attrs[j]).key matches Some(k) && k@ == self.spec_attr_key(from + j)
            &&& attrs[j].value matches Some(v) && v@ == self.spec_attr_value(from + j)
            &&& attrs[j].namespace@ == Seq::<char>::empty()
        }
    }

    /// Whether every attribute of the current tag from `from` on decodes.
    pub open spec fn attrs_decode(&self, from: int) -> bool {
        forall|i: int| from <= i < self.spec_attr_range().1 ==> (#[trigger] self.spec_attr(i)) is Some
    }

    /// The current token, with its text or its lowercase name and attributes.
    pub fn token(&mut self) -> (res: Result<Token, HtmlParseError>)
        requires
            old(self).wf(),
        ensures
            final(self).wf(),
            res matches Ok(tok) ==> tok.token_type == old(self).spec_token() && tok.writable(),
            if is_text_like(old(self).spec_token()) {
                match old(self).spec_text() {
                    Some(t) => res matches Ok(tok) && tok.data matches Some(d) && d@ == t
                        && tok.attrs@.len() == 0,
                    None => res is Err,
                }
            } else if is_tag(old(self).spec_token()) && old(self).spec_has_data() {
                &&& (res is Ok <==> old(self).spec_tag_name() is Some && old(self).attrs_decode(
                    old(self).spec_attr_range().0,
                ))
                &&& res matches Ok(tok) ==> tok.data matches Some(d) && d@
                    == old(self).spec_tag_name()->0 && old(self).attrs_match(
                    tok.attrs@,
                    old(self).spec_attr_range().0,
                )
            } else {
                res matches Ok(tok) && tok.data is None && tok.attrs@.len() == 0
            },
    {
        let token_type = self.token;
        if token_type == TokenType::TextToken || token_type == TokenType::CommentToken || token_type
            == TokenType::DoctypeToken {
            return match self.text() {
                Ok(data) => Ok(Token { token_type, data, attrs: Vec::new() }),
                Err(e) => Err(e),
            };
        }
        if token_type == TokenType::StartTagToken || token_type == TokenType::SelfClosingTagToken
            || token_type == TokenType::EndTagToken {
            let ghost before = *self;
            let (name, mut has_attr) = match self.tag_name() {
                Ok(r) => r,
                Err(e) => return Err(e),
            };
            let ghost from = self.number_attribute_returned as int;
            let mut attrs: Vec<Attribute> = Vec::new();
            while has_attr
                invariant
                    self.wf(),
                    self.token == token_type,
                    before.token == token_type,
                    self.buffer@ == before.buffer@,
                    self.attribute@ == before.attribute@,
                    from == before.number_attribute_returned,
                    from <= self.number_attribute_returned,
                    attrs@.len() == self.number_attribute_returned - from,
                    before.spec_has_data() ==> has_attr == (self.number_attribute_returned
                        < self.attribute@.len()),
                    !before.spec_has_data() ==> !has_attr && attrs@.len() == 0,
                    has_attr ==> self.number_attribute_returned < self.attribute@.len(),
                    is_tag(token_type),
                    token_type == TokenType::EndTagToken ==> self.attribute@.len() == 0,
                    (has_attr || attrs@.len() > 0) ==> before.spec_has_data() && before.spec_tag_name() is Some,
                    before == *old(self),
                    forall|j: int| 0 <= j < attrs@.len() ==> {
                        &&& before.spec_attr(from + j) is Some
                        &&& (#[trigger] attrs@[j]).key matches Some(k) && k@ == before.spec_attr_key(from + j)
                        &&& attrs@[j].value matches Some(v) && v@ == before.spec_attr_value(from + j)
                        &&& attrs@[j].namespace@ == Seq::<char>::empty()
                    },
                decreases self.attribute@.len() - self.number_attribute_returned,
            {
                let ghost i = self.number_attribute_returned as int;
                assert(before.spec_attr(i) == self.spec_attr(i));
                let (key, value, more) = match self.tag_attr() {
                    Ok(r) => r,
                    Err(e) => {
                        proof {
                            assert(before.spec_attr(i) is None);
                            assert(!before.attrs_decode(from));
                        }
                        return Err(e);
                    },
                };
                has_attr = more;
                attrs.push(Attribute { key, value, namespace: String::new() });
                assert(attrs@.last() == attrs@[attrs@.len() - 1]);
            }
            proof {
                if before.spec_has_data() {
                    assert(before.attrs_match(attrs@, from));
                    assert forall|i: int| from <= i < before.attribute@.len() implies (#[trigger] before.spec_attr(i)) is Some by {
                        assert(attrs@[i - from].key is Some);
                    }
                }
            }
            return Ok(Token { token_type, data: name, attrs });
        }
        Ok(Token { token_type, data: None, attrs: Vec::new() })
    }
}

/// Successive tokenizer states, each the one after the other's `next`: the input stays and
/// each token starts where the one before ended.
pub open spec fn successive(states: Seq<Tokenizer>) -> bool {
    &&& forall|i: int| 0 <= i < states.len() ==> (#[trigger] states[i]).wf()
    &&& forall|i: int| 0 <= i < states.len() - 1 ==> (#[trigger] states[i + 1]).spec_buffer() == states[i].spec_buffer()
        && states[i + 1].spec_raw_start() == states[i].spec_raw_end()
}

/// The bytes of the tokens of the states after the first, one after the other.
pub open spec fn raw_texts(states: Seq<Tokenizer>) -> Seq<u8>
    decreases states.len(),
{
    if states.len() <= 1 {
        Seq::<u8>::empty()
    } else {
        raw_texts(states.drop_last()) + states.last().spec_raw_bytes()
    }
}

/// The tokens that a tokenizer reads from its start tile its input: their bytes, one after
/// the other, are the input up to the end of the last one, and the whole input once the
/// tokenizer has reached its end.
pub proof fn law_raw_tokens_tile_the_input(states: Seq<Tokenizer>)
    requires
        states.len() > 0,
        states[0].spec_raw_end() == 0,
        successive(states),
    ensures
        raw_texts(states) == states.last().spec_buffer().take(states.last().spec_raw_end()),
        states.last().spec_err() == Some(ErrorKind::EOFError) ==> raw_texts(states) == states.last().spec_buffer(),
    decreases states.len(),
{
    let last = states.last();
    if states.len() == 1 {
        assert(last.spec_buffer().take(0) =~= Seq::<u8>::empty());
    } else {
        let prev = states.drop_last();
        assert forall|i: int| 0 <= i < prev.len() implies (#[trigger] prev[i]).wf() by {
            assert(prev[i] == states[i]);
        }
        assert forall|i: int| 0 <= i < prev.len() - 1 implies (#[trigger] prev[i + 1]).spec_buffer() == prev[i].spec_buffer()
            && prev[i + 1].spec_raw_start() == prev[i].spec_raw_end() by {
            assert(prev[i + 1] == states[i + 1]);
            assert(prev[i] == states[i]);
        }
        law_raw_tokens_tile_the_input(prev);
        let before = prev.last();
        assert(before == states[states.len() - 2]);
        assert(states[states.len() - 1] == last);
        assert(last.wf());
        assert(before.wf());
        let k = states.len() - 2;
        assert(states[k + 1].spec_buffer() == states[k].spec_buffer() && states[k + 1].spec_raw_start()
            == states[k].spec_raw_end());
        assert(states[k + 1] == last);
        assert(last.spec_buffer().take(before.spec_raw_end()) + last.spec_buffer().subrange(
            last.spec_raw_start(),
            last.spec_raw_end(),
        ) =~= last.spec_buffer().take(last.spec_raw_end()));
    }
    if last.spec_err() == Some(ErrorKind::EOFError) {
        assert(last.spec_buffer().take(last.spec_raw_end()) =~= last.spec_buffer());
    }
}

} // verus!
