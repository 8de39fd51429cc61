//! Regular expressions that are compiled when first needed.
use vstd::prelude::*;

use vstd::std_specs::cmp::PartialEqSpecImpl;

use crate::text::{push_char, str_eq};

verus! {

/// Declares the regex crate's compiled expression.
#[verifier::external_type_specification]
#[verifier::external_body]
pub struct ExRegex(regex::Regex);

/// Whether a character has a meaning in a regular expression.
pub open spec fn is_meta_character(c: char) -> bool {
    c == '\\' || c == '.' || c == '+' || c == '*' || c == '?' || c == '(' || c == ')' || c == '|' || c == '['
        || c == ']' || c == '{' || c == '}' || c == '^' || c == '$' || c == '#' || c == '&' || c == '-' || c
        == '~'
}

/// `s` with a backslash before each meta character: a pattern that matches `s` literally.
pub open spec fn spec_escape(s: Seq<char>) -> Seq<char>
    decreases s.len(),
{
    if s.len() == 0 {
        Seq::<char>::empty()
    } else {
        spec_escape(s.drop_last()) + if is_meta_character(s.last()) {
            seq!['\\', s.last()]
        } else {
            seq![s.last()]
        }
    }
}

/// Calls `regex::escape`, which puts a backslash before each meta character of `s`.
#[verifier::external_body]
pub(crate) fn escape(s: &str) -> (res: String)
    ensures
        res@ == spec_escape(s@),
{
    regex::escape(s)
}

/// Whether `pattern` compiles, with the case ignored or not.
pub uninterp spec fn spec_regex_compiles(pattern: Seq<char>, ignore_case: bool) -> bool;

/// Whether the compiled `pattern` matches somewhere in `value`.
pub uninterp spec fn spec_regex_is_match(pattern: Seq<char>, ignore_case: bool, value: Seq<char>) -> bool;

/// The names of the groups of the compiled `pattern`, by group index (`None` for a group
/// without a name).
pub uninterp spec fn spec_regex_capture_names(pattern: Seq<char>, ignore_case: bool) -> Seq<Option<Seq<char>>>;

/// The text that each group of the compiled `pattern` matched at the first match in
/// `value`, by group index (`None` for a group that took no part); `None` without a match.
pub uninterp spec fn spec_regex_captures(pattern: Seq<char>, ignore_case: bool, value: Seq<char>) -> Option<Seq<Option<Seq<char>>>>;

/// A compiled regular expression, with the pattern and flag it was compiled from.
#[derive(Debug)]
pub struct CompiledRegex {
    pattern: String,
    ignore_case: bool,
    inner: regex::Regex,
}

impl View for CompiledRegex {
    type V = (Seq<char>, bool);

    closed spec fn view(&self) -> (Seq<char>, bool) {
        (self.pattern@, self.ignore_case)
    }
}

/// Compiles `pattern` with `RegexBuilder::new(..).case_insensitive(..).build()`; the
/// result is a function of the pattern and the flag.
#[verifier::external_body]
pub(crate) fn build_regex(pattern: &str, ignore_case: bool) -> (res: Option<CompiledRegex>)
    ensures
        res is Some <==> spec_regex_compiles(pattern@, ignore_case),
        res matches Some(r) ==> r@ == (pattern@, ignore_case),
{
    match regex::RegexBuilder::new(pattern).case_insensitive(ignore_case).build() {
        Ok(inner) => Some(CompiledRegex { pattern: pattern.to_string(), ignore_case, inner }),
        Err(_) => None,
    }
}

/// Calls `Regex::is_match`.
#[verifier::external_body]
pub(crate) fn regex_is_match(re: &CompiledRegex, value: &str) -> (res: bool)
    ensures
        res == spec_regex_is_match(re@.0, re@.1, value@),
{
    re.inner.is_match(value)
}

/// Calls `Regex::capture_names`, one name (or none) per group.
#[verifier::external_body]
pub(crate) fn regex_capture_names(re: &CompiledRegex) -> (res: Vec<Option<String>>)
    ensures
        res@.map_values(|n: Option<String>| match n {
            Some(s) => Some(s@),
            None => None,
        }) == spec_regex_capture_names(re@.0, re@.1),
{
    re.inner.capture_names().map(|n| n.map(|s| s.to_string())).collect()
}

/// Calls `Regex::captures`, and gives the text of each group of the first match.
#[verifier::external_body]
pub(crate) fn regex_captures(re: &CompiledRegex, value: &str) -> (res: Option<Vec<Option<String>>>)
    ensures
        match spec_regex_captures(re@.0, re@.1, value@) {
            None => res is None,
            Some(groups) => res matches Some(v) && v@.map_values(|g: Option<String>| match g {
                Some(s) => Some(s@),
                None => None,
            }) == groups,
        },
{
    re.inner.captures(value).map(|c| c.iter().map(|m| m.map(|m| m.as_str().to_string())).collect())
}

/// A regular expression: the pattern it was written in, and the one it compiles.
#[derive(Debug, Clone)]
pub struct LazyRegex {
    original: String,
    regex: String,
    compiled: Option<CompiledRegex>,
    ignore_case: bool,
}

impl LazyRegex {
    pub closed spec fn spec_original(&self) -> Seq<char> {
        self.original@
    }

    /// The pattern that is compiled.
    pub closed spec fn spec_regex(&self) -> Seq<char> {
        self.regex@
    }

    pub closed spec fn spec_ignore_case(&self) -> bool {
        self.ignore_case
    }

    pub closed spec fn spec_compiled(&self) -> bool {
        self.compiled is Some
    }

    /// A compiled expression is the pattern compiled with the flag, which compiles.
    pub closed spec fn wf(&self) -> bool {
        self.compiled matches Some(r) ==> r@ == (self.regex@, self.ignore_case) && spec_regex_compiles(
            self.regex@,
            self.ignore_case,
        )
    }

    /// A regex that matches `regex` anywhere.
    pub fn new(regex: String, ignore_case: bool) -> (res: LazyRegex)
        ensures
            res.wf(),
            res.spec_original() == regex@,
            res.spec_regex() == regex@,
            res.spec_ignore_case() == ignore_case,
            !res.spec_compiled(),
    {
        LazyRegex { regex: regex.clone(), original: regex, compiled: None, ignore_case }
    }

    /// A regex that matches `regex` at the start, or anything where it is empty.
    pub fn new_node(regex: String, ignore_case: bool) -> (res: LazyRegex)
        ensures
            res.wf(),
            res.spec_original() == regex@,
            res.spec_regex() == if regex@.len() == 0 {
                seq!['.', '*']
            } else {
                seq!['^'] + regex@
            },
            res.spec_ignore_case() == ignore_case,
            !res.spec_compiled(),
    {
        let mut pattern = String::new();
        if regex.as_str().is_empty() {
            push_char(&mut pattern, '.');
            push_char(&mut pattern, '*');
        } else {
            push_char(&mut pattern, '^');
            pattern.append(regex.as_str());
        }
        LazyRegex { regex: pattern, original: regex, compiled: None, ignore_case }
    }

    /// A regex that matches the whole of a value against `regex`.
    pub fn new_leaf(regex: &str, ignore_case: bool) -> (res: LazyRegex)
        ensures
            res.wf(),
            res.spec_original() == regex@,
            res.spec_regex() == seq!['^'] + regex@ + seq!['$'],
            res.spec_ignore_case() == ignore_case,
            !res.spec_compiled(),
    {
        let mut pattern = String::new();
        push_char(&mut pattern, '^');
        pattern.append(regex);
        push_char(&mut pattern, '$');
        LazyRegex { regex: pattern, original: String::from_str(regex), compiled: None, ignore_case }
    }

    /// Whether `value` matches: an empty regex that is not compiled matches anything, and
    /// one that does not compile matches nothing.
    pub fn is_match(&self, value: &str) -> (res: bool)
        requires
            self.wf(),
        ensures
            res == if !self.spec_compiled() && self.spec_original().len() == 0 {
                true
            } else if spec_regex_compiles(self.spec_regex(), self.spec_ignore_case()) {
                spec_regex_is_match(self.spec_regex(), self.spec_ignore_case(), value@)
            } else {
                false
            },
    {
        match &self.compiled {
            Some(regex) => regex_is_match(regex, value),
            None => {
                if self.original.as_str().is_empty() {
                    true
                } else {
                    match self.create_regex() {
                        None => false,
                        Some(regex) => regex_is_match(&regex, value),
                    }
                }
            },
        }
    }

    /// The compiled regex: the one kept, or a new one.
    pub fn regex(&self) -> (res: Option<CompiledRegex>)
        requires
            self.wf(),
        ensures
            res is Some <==> spec_regex_compiles(self.spec_regex(), self.spec_ignore_case()),
            res matches Some(r) ==> r@ == (self.spec_regex(), self.spec_ignore_case()),
    {
        match &self.compiled {
            Some(regex) => Some(regex.clone_regex()),
            None => self.create_regex(),
        }
    }

    /// Compiles the pattern.
    pub fn create_regex(&self) -> (res: Option<CompiledRegex>)
        ensures
            res is Some <==> spec_regex_compiles(self.spec_regex(), self.spec_ignore_case()),
            res matches Some(r) ==> r@ == (self.spec_regex(), self.spec_ignore_case()),
    {
        build_regex(self.regex.as_str(), self.ignore_case)
    }

    /// The same regex, compiled where the pattern compiles.
    pub fn compile(&self) -> (res: Self)
        ensures
            res.wf(),
            res.spec_original() == self.spec_original(),
            res.spec_regex() == self.spec_regex(),
            res.spec_ignore_case() == self.spec_ignore_case(),
            res.spec_compiled() == spec_regex_compiles(self.spec_regex(), self.spec_ignore_case()),
    {
        let compiled = self.create_regex();
        LazyRegex { regex: self.regex.clone(), original: self.original.clone(), compiled, ignore_case: self.ignore_case }
    }
}

/// Two regexes are equal where they were written in the same pattern, with the same flag.
impl PartialEq for LazyRegex {
    fn eq(&self, other: &Self) -> (res: bool) {
        str_eq(self.original.as_str(), other.original.as_str()) && self.ignore_case == other.ignore_case
    }
}

impl PartialEqSpecImpl for LazyRegex {
    open spec fn obeys_eq_spec() -> bool {
        true
    }

    open spec fn eq_spec(&self, other: &Self) -> bool {
        self.spec_original() == other.spec_original() && self.spec_ignore_case() == other.spec_ignore_case()
    }
}

impl Eq for LazyRegex {
}

/// A regex that holds a compiled expression holds one of a pattern that compiles, with its
/// flag: what it matches is then what that pattern matches.
pub proof fn law_a_compiled_regex_compiles(r: LazyRegex)
    requires
        r.wf(),
    ensures
        r.spec_compiled() ==> spec_regex_compiles(r.spec_regex(), r.spec_ignore_case()),
{
}

impl CompiledRegex {
    /// A copy of the compiled regex.
    pub fn clone_regex(&self) -> (res: CompiledRegex)
        ensures
            res@ == self@,
    {
        CompiledRegex { pattern: self.pattern.clone(), ignore_case: self.ignore_case, inner: clone_inner(&self.inner) }
    }
}

impl Clone for CompiledRegex {
    fn clone(&self) -> (res: Self)
        ensures
            res@ == self@,
    {
        self.clone_regex()
    }
}

/// Calls `Regex::clone`, which shares the compiled program.
#[verifier::external_body]
fn clone_inner(re: &regex::Regex) -> (res: regex::Regex) {
    re.clone()
}

} // verus!
