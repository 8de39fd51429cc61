//! Markers: named placeholders (`@name`) in a string that stand for a regular expression,
//! and whose matches can be captured.
use vstd::prelude::*;

pub mod transformer;

use crate::regex::{
    LazyRegex, escape, regex_capture_names, regex_captures, spec_escape, spec_regex_capture_names,
    spec_regex_captures, spec_regex_compiles,
};
use crate::text::{
    contains, lemma_order_in_range, order_by_length, order_by_length_desc, push_char, replace, replace_all, seq_contains,
    spec_to_lowercase, str_eq, to_lowercase,
};

pub use transformer::{Camelize, Dasherize, Lowercase, Replace, Transform, Uppercase};

verus! {

/// A named placeholder and the regular expression it stands for.
#[derive(Debug, Clone)]
pub struct Marker {
    name: String,
    regex: String,
}

/// `@name`: how a marker is written in a string.
pub open spec fn marker_tag(name: Seq<char>) -> Seq<char> {
    seq!['@'] + name
}

/// `(?:regex)`: the marker's expression as a group that captures nothing.
pub open spec fn marker_group(regex: Seq<char>) -> Seq<char> {
    seq!['(', '?', ':'] + regex + seq![')']
}

/// `(?P<name>regex)`: the marker's expression as a group named after it.
pub open spec fn marker_named_group(name: Seq<char>, regex: Seq<char>) -> Seq<char> {
    seq!['(', '?', 'P', '<'] + name + seq!['>'] + regex + seq![')']
}

/// `kvs` with the value of `k` set to `v`: in place where `k` is there, at the end otherwise.
pub open spec fn map_insert<V>(kvs: Seq<(Seq<char>, V)>, k: Seq<char>, v: V) -> Seq<(Seq<char>, V)>
    decreases kvs.len(),
{
    if kvs.len() == 0 {
        seq![(k, v)]
    } else if kvs[0].0 == k {
        seq![(k, v)] + kvs.drop_first()
    } else {
        seq![kvs[0]] + map_insert(kvs.drop_first(), k, v)
    }
}

/// The markers (name, expression), longest name first, by its length in UTF-8 bytes.
pub open spec fn sorted_markers(markers: Seq<Marker>) -> Seq<(Seq<char>, Seq<char>)> {
    let order = order_by_length(
        markers.map_values(|m: Marker| vstd::utf8::encode_utf8(m.spec_name()).len()),
        markers.len() as int,
    );
    order.map_values(|i: int| (markers[i].spec_name(), markers[i].spec_regex()))
}

/// The pattern, the capturing pattern and the markers used, once the markers are put in
/// in turn: each marker whose tag is in the pattern has its tag replaced in both.
pub open spec fn apply_markers(
    regex: Seq<char>,
    capture: Seq<char>,
    used: Seq<(Seq<char>, Seq<char>)>,
    markers: Seq<(Seq<char>, Seq<char>)>,
) -> (Seq<char>, Seq<char>, Seq<(Seq<char>, Seq<char>)>)
    decreases markers.len(),
{
    if markers.len() == 0 {
        (regex, capture, used)
    } else {
        let (r, c, u) = apply_markers(regex, capture, used, markers.drop_last());
        let (name, re) = markers.last();
        if seq_contains(r, marker_tag(name)) {
            (
                replace_all(r, marker_tag(name), marker_group(re)),
                replace_all(c, marker_tag(name), marker_named_group(name, re)),
                map_insert(u, name, marker_named_group(name, re)),
            )
        } else {
            (r, c, u)
        }
    }
}

/// The named groups that took part in a match, with their text, in the order of the groups.
pub open spec fn named_captures(names: Seq<Option<Seq<char>>>, groups: Seq<Option<Seq<char>>>) -> Seq<(Seq<char>, Seq<char>)>
    decreases names.len(),
{
    if names.len() == 0 {
        Seq::<(Seq<char>, Seq<char>)>::empty()
    } else {
        let i = names.len() - 1;
        named_captures(names.drop_last(), groups) + match names.last() {
            Some(n) => if i < groups.len() && groups[i] is Some {
                seq![(n, groups[i]->0)]
            } else {
                Seq::<(Seq<char>, Seq<char>)>::empty()
            },
            None => Seq::<(Seq<char>, Seq<char>)>::empty(),
        }
    }
}

/// Every named group that took part in a match is captured with its text, and every pair
/// captured is such a group with its text.
pub proof fn law_every_matching_named_group_is_captured(names: Seq<Option<Seq<char>>>, groups: Seq<Option<Seq<char>>>)
    ensures
        forall|i: int|
            0 <= i < names.len() && i < groups.len() && #[trigger] names[i] is Some && groups[i] is Some
                ==> named_captures(names, groups).contains((names[i]->0, groups[i]->0)),
        forall|k: int|
            0 <= k < named_captures(names, groups).len() ==> exists|i: int|
                0 <= i < names.len() && i < groups.len() && names[i] == Some(
                    #[trigger] named_captures(names, groups)[k].0,
                ) && groups[i] == Some(named_captures(names, groups)[k].1),
    decreases names.len(),
{
    if names.len() > 0 {
        let prev = names.drop_last();
        law_every_matching_named_group_is_captured(prev, groups);
        let r = named_captures(prev, groups);
        let all = named_captures(names, groups);
        let l = names.len() - 1;
        let tail = match names.last() {
            Some(n) => if l < groups.len() && groups[l] is Some {
                seq![(n, groups[l]->0)]
            } else {
                Seq::<(Seq<char>, Seq<char>)>::empty()
            },
            None => Seq::<(Seq<char>, Seq<char>)>::empty(),
        };
        assert(all == r + tail);
        assert forall|i: int|
            0 <= i < names.len() && i < groups.len() && #[trigger] names[i] is Some && groups[i] is Some
                implies all.contains((names[i]->0, groups[i]->0)) by {
            if i == l {
                assert(all[r.len() as int] == (names[i]->0, groups[i]->0));
            } else {
                assert(prev[i] == names[i]);
                assert(r.contains((prev[i]->0, groups[i]->0)));
                let k = choose|k: int| 0 <= k < r.len() && r[k] == (prev[i]->0, groups[i]->0);
                assert(all[k] == r[k]);
            }
        }
        assert forall|k: int| 0 <= k < all.len() implies exists|i: int|
            0 <= i < names.len() && i < groups.len() && names[i] == Some(#[trigger] all[k].0) && groups[i] == Some(
                all[k].1,
            ) by {
            if k < r.len() {
                assert(all[k] == r[k]);
                let i = choose|i: int|
                    0 <= i < prev.len() && i < groups.len() && prev[i] == Some(#[trigger] r[k].0) && groups[i] == Some(
                        r[k].1,
                    );
                assert(names[i] == prev[i]);
            } else {
                assert(names[l] == Some(all[k].0));
            }
        }
    }
}

/// A list of string pairs as plain values.
pub open spec fn pairs_view(v: Seq<(String, String)>) -> Seq<(Seq<char>, Seq<char>)> {
    v.map_values(|p: (String, String)| (p.0@, p.1@))
}

/// A string with markers in it.
#[derive(Debug, Clone)]
pub struct MarkerString {
    pub regex: String,
    pub capture: String,
    pub ignore_case: bool,
    markers: Vec<(String, String)>,
    regex_capture: LazyRegex,
}

#[derive(Debug, Clone)]
pub enum StaticOrDynamic {
    Static(String),
    Dynamic(MarkerString),
}

impl Marker {
    pub closed spec fn spec_name(&self) -> Seq<char> {
        self.name@
    }

    pub closed spec fn spec_regex(&self) -> Seq<char> {
        self.regex@
    }

    pub fn new(name: String, regex: String) -> (res: Marker)
        ensures
            res.spec_name() == name@,
            res.spec_regex() == regex@,
    {
        Marker { name, regex }
    }

    pub fn name(&self) -> (res: &str)
        ensures
            res@ == self.spec_name(),
    {
        self.name.as_str()
    }

    pub fn regex(&self) -> (res: &str)
        ensures
            res@ == self.spec_regex(),
    {
        self.regex.as_str()
    }

    /// `@name`.
    pub fn format(&self) -> (res: String)
        ensures
            res@ == marker_tag(self.spec_name()),
    {
        let mut s = String::new();
        push_char(&mut s, '@');
        s.append(self.name.as_str());
        s
    }
}

/// `kvs` with the value of `k` set to `v`.
pub(crate) fn insert_pair(kvs: &mut Vec<(String, String)>, k: String, v: String)
    ensures
        pairs_view(final(kvs)@) == map_insert(pairs_view(old(kvs)@), k@, v@),
{
    let ghost kv = pairs_view(kvs@);
    let mut i: usize = 0;
    while i < kvs.len()
        invariant
            i <= kvs@.len(),
            kv == pairs_view(kvs@),
            kv == pairs_view(old(kvs)@),
            forall|j: int| 0 <= j < i ==> kv[j].0 != k@,
        decreases kvs@.len() - i,
    {
        if str_eq(kvs[i].0.as_str(), k.as_str()) {
            proof {
                lemma_map_insert_at(kv, k@, v@, i as int);
            }
            kvs.set(i, (k, v));
            assert(pairs_view(kvs@) =~= kv.update(i as int, (k@, v@)));
            return;
        }
        i = i + 1;
    }
    proof {
        lemma_map_insert_new(kv, k@, v@);
    }
    kvs.push((k, v));
    assert(pairs_view(kvs@) =~= kv.push((k@, v@)));
}

/// Setting a key that is there sets its entry.
pub proof fn lemma_map_insert_at<V>(kvs: Seq<(Seq<char>, V)>, k: Seq<char>, v: V, i: int)
    requires
        0 <= i < kvs.len(),
        kvs[i].0 == k,
        forall|j: int| 0 <= j < i ==> kvs[j].0 != k,
    ensures
        map_insert(kvs, k, v) == kvs.update(i, (k, v)),
    decreases kvs.len(),
{
    if i == 0 {
        assert(seq![(k, v)] + kvs.drop_first() =~= kvs.update(0, (k, v)));
    } else {
        lemma_map_insert_at(kvs.drop_first(), k, v, i - 1);
        assert(seq![kvs[0]] + kvs.drop_first().update(i - 1, (k, v)) =~= kvs.update(i, (k, v)));
    }
}

/// Setting a key that is not there adds its entry at the end.
pub proof fn lemma_map_insert_new<V>(kvs: Seq<(Seq<char>, V)>, k: Seq<char>, v: V)
    requires
        forall|j: int| 0 <= j < kvs.len() ==> kvs[j].0 != k,
    ensures
        map_insert(kvs, k, v) == kvs.push((k, v)),
    decreases kvs.len(),
{
    if kvs.len() == 0 {
        assert(seq![(k, v)] =~= kvs.push((k, v)));
    } else {
        lemma_map_insert_new(kvs.drop_first(), k, v);
        assert(seq![kvs[0]] + kvs.drop_first().push((k, v)) =~= kvs.push((k, v)));
    }
}

/// `map_insert` always leaves at least one entry.
proof fn lemma_map_insert_not_empty<V>(kvs: Seq<(Seq<char>, V)>, k: Seq<char>, v: V)
    ensures
        map_insert(kvs, k, v).len() > 0,
    decreases kvs.len(),
{
    if kvs.len() > 0 && kvs[0].0 != k {
        lemma_map_insert_not_empty(kvs.drop_first(), k, v);
    }
}

/// The used markers only grow.
proof fn lemma_apply_markers_grows(
    regex: Seq<char>,
    capture: Seq<char>,
    used: Seq<(Seq<char>, Seq<char>)>,
    markers: Seq<(Seq<char>, Seq<char>)>,
)
    requires
        used.len() > 0,
    ensures
        apply_markers(regex, capture, used, markers).2.len() > 0,
    decreases markers.len(),
{
    if markers.len() > 0 {
        lemma_apply_markers_grows(regex, capture, used, markers.drop_last());
        let (r, c, u) = apply_markers(regex, capture, used, markers.drop_last());
        lemma_map_insert_not_empty(u, markers.last().0, marker_named_group(markers.last().0, markers.last().1));
    }
}

impl MarkerString {
    /// The pattern that matches the string.
    pub closed spec fn spec_pattern(&self) -> Seq<char> {
        self.regex@
    }

    /// The pattern with a named group for each marker.
    pub closed spec fn spec_capture_pattern(&self) -> Seq<char> {
        self.capture@
    }

    pub closed spec fn spec_ignore_case(&self) -> bool {
        self.ignore_case
    }

    /// The markers used, each with its named group.
    pub closed spec fn spec_markers(&self) -> Seq<(Seq<char>, Seq<char>)> {
        pairs_view(self.markers@)
    }

    /// The regex that captures: the whole value against the capturing pattern.
    pub closed spec fn spec_regex_capture(&self) -> LazyRegex {
        self.regex_capture
    }

    /// The capturing regex is the capturing pattern, anchored at both ends.
    pub closed spec fn wf(&self) -> bool {
        &&& self.regex_capture.wf()
        &&& self.regex_capture.spec_regex() == seq!['^'] + self.capture@ + seq!['$']
        &&& self.regex_capture.spec_ignore_case() == self.ignore_case
    }

    /// `str` as a pattern: its text escaped, and the tag of each marker (longest name
    /// first) that it holds replaced by the marker's expression; `None` where it holds none.
    pub fn new(str: &str, markers: Vec<Marker>, ignore_case: bool) -> (res: Option<MarkerString>)
        ensures
            ({
                let (r, c, u) = apply_markers(spec_escape(str@), spec_escape(str@), Seq::empty(), sorted_markers(markers@));
                match res {
                    None => u.len() == 0,
                    Some(m) => {
                        &&& u.len() > 0
                        &&& m.wf()
                        &&& m.spec_pattern() == r
                        &&& m.spec_capture_pattern() == c
                        &&& m.spec_ignore_case() == ignore_case
                        &&& m.spec_markers() == u
                        &&& !m.spec_regex_capture().spec_compiled()
                    },
                }
            }),
    {
        let mut regex = escape(str);
        let mut capture = regex.clone();
        let mut marker_map: Vec<(String, String)> = Vec::new();
        let mut lens: Vec<usize> = Vec::new();
        let mut i: usize = 0;
        while i < markers.len()
            invariant
                i <= markers@.len(),
                lens@.len() == i,
                forall|j: int| 0 <= j < i ==> #[trigger] lens@[j] as nat == vstd::utf8::encode_utf8(markers@[j].name@).len(),
            decreases markers@.len() - i,
        {
            lens.push(markers[i].name.as_str().as_bytes().len());
            i = i + 1;
        }
        let order = order_by_length_desc(&lens);
        let ghost sorted = sorted_markers(markers@);
        let ghost ls = lens@.map_values(|l: usize| l as nat);
        assert(ls =~= markers@.map_values(|m: Marker| vstd::utf8::encode_utf8(m.spec_name()).len()));
        let ghost ord = order@.map_values(|i: usize| i as int);
        proof {
            lemma_order_in_range(ls, ls.len() as int);
        }
        let mut k: usize = 0;
        while k < order.len()
            invariant
                k <= order@.len(),
                ord == order@.map_values(|i: usize| i as int),
                ord == order_by_length(ls, ls.len() as int),
                ls.len() == markers@.len(),
                forall|j: int| 0 <= j < ord.len() ==> 0 <= #[trigger] ord[j] < ls.len(),
                sorted == ord.map_values(|i: int| (markers@[i].spec_name(), markers@[i].spec_regex())),
                (regex@, capture@, pairs_view(marker_map@)) == apply_markers(
                    spec_escape(str@),
                    spec_escape(str@),
                    Seq::empty(),
                    sorted.take(k as int),
                ),
            decreases order@.len() - k,
        {
            let ghost idx = ord[k as int];
            let marker = &markers[order[k]];
            let ghost prev = apply_markers(spec_escape(str@), spec_escape(str@), Seq::empty(), sorted.take(k as int));
            proof {
                assert(sorted.take(k + 1).drop_last() =~= sorted.take(k as int));
                assert(sorted[k as int] == (marker.name@, marker.regex@));
                assert(sorted.take(k + 1).last() == (marker.name@, marker.regex@));
            }
            let tag = marker.format();
            let ghost name = marker.name@;
            let ghost re = marker.regex@;
            if contains(regex.as_str(), tag.as_str()) {
                let mut marker_regex = String::new();
                push_char(&mut marker_regex, '(');
                push_char(&mut marker_regex, '?');
                push_char(&mut marker_regex, ':');
                marker_regex.append(marker.regex.as_str());
                push_char(&mut marker_regex, ')');
                let mut marker_capture = String::new();
                push_char(&mut marker_capture, '(');
                push_char(&mut marker_capture, '?');
                push_char(&mut marker_capture, 'P');
                push_char(&mut marker_capture, '<');
                marker_capture.append(marker.name.as_str());
                push_char(&mut marker_capture, '>');
                marker_capture.append(marker.regex.as_str());
                push_char(&mut marker_capture, ')');
                regex = replace(regex.as_str(), tag.as_str(), marker_regex.as_str());
                capture = replace(capture.as_str(), tag.as_str(), marker_capture.as_str());
                assert(marker_regex@ =~= marker_group(re));
                assert(marker_capture@ =~= marker_named_group(name, re));
                insert_pair(&mut marker_map, marker.name.clone(), marker_capture);
            }
            proof {
                let next = apply_markers(spec_escape(str@), spec_escape(str@), Seq::empty(), sorted.take(k + 1));
                assert(next == (if seq_contains(prev.0, marker_tag(name)) {
                    (
                        replace_all(prev.0, marker_tag(name), marker_group(re)),
                        replace_all(prev.1, marker_tag(name), marker_named_group(name, re)),
                        map_insert(prev.2, name, marker_named_group(name, re)),
                    )
                } else {
                    prev
                }));
            }
            k = k + 1;
        }
        assert(sorted.take(k as int) =~= sorted);
        if marker_map.len() == 0 {
            return None;
        }
        let regex_capture = LazyRegex::new_leaf(capture.as_str(), ignore_case);
        Some(MarkerString { regex, regex_capture, capture, markers: marker_map, ignore_case })
    }

    /// The named groups that match in `value`, with their text: the whole of `value`
    /// against the capturing pattern; nothing where it does not match or does not compile.
    pub open spec fn spec_capture(&self, value: Seq<char>) -> Seq<(Seq<char>, Seq<char>)> {
        let pattern = seq!['^'] + self.spec_capture_pattern() + seq!['$'];
        let ignore_case = self.spec_ignore_case();
        if spec_regex_compiles(pattern, ignore_case) {
            match spec_regex_captures(pattern, ignore_case, value) {
                None => Seq::empty(),
                Some(groups) => named_captures(spec_regex_capture_names(pattern, ignore_case), groups),
            }
        } else {
            Seq::empty()
        }
    }

    /// Where the capturing pattern compiles and matches `value`, every named group of it that
    /// takes part in the match is captured with its text, and nothing else is.
    pub proof fn law_capture_holds_every_matching_marker(&self, value: Seq<char>)
        ensures
            ({
                let pattern = seq!['^'] + self.spec_capture_pattern() + seq!['$'];
                let ic = self.spec_ignore_case();
                let names = spec_regex_capture_names(pattern, ic);
                spec_regex_compiles(pattern, ic) ==> match spec_regex_captures(pattern, ic, value) {
                    None => self.spec_capture(value).len() == 0,
                    Some(groups) => {
                        &&& forall|i: int|
                            0 <= i < names.len() && i < groups.len() && #[trigger] names[i] is Some && groups[i] is Some
                                ==> self.spec_capture(value).contains((names[i]->0, groups[i]->0))
                        &&& forall|k: int|
                            0 <= k < self.spec_capture(value).len() ==> exists|i: int|
                                0 <= i < names.len() && i < groups.len() && names[i] == Some(
                                    #[trigger] self.spec_capture(value)[k].0,
                                ) && groups[i] == Some(self.spec_capture(value)[k].1)
                    },
                }
            }),
            !spec_regex_compiles(seq!['^'] + self.spec_capture_pattern() + seq!['$'], self.spec_ignore_case())
                ==> self.spec_capture(value).len() == 0,
    {
        let pattern = seq!['^'] + self.spec_capture_pattern() + seq!['$'];
        let ic = self.spec_ignore_case();
        if spec_regex_compiles(pattern, ic) {
            if let Some(groups) = spec_regex_captures(pattern, ic, value) {
                law_every_matching_named_group_is_captured(spec_regex_capture_names(pattern, ic), groups);
            }
        }
    }

    /// The named groups of the marker string that match in `str`, with their text.
    pub fn capture(&self, str: &str) -> (res: Vec<(String, String)>)
        requires
            self.wf(),
        ensures
            pairs_view(res@) == self.spec_capture(str@),
    {
        let mut parameters: Vec<(String, String)> = Vec::new();
        let regex = match self.regex_capture.regex() {
            Some(regex) => regex,
            None => {
                assert(pairs_view(parameters@) =~= Seq::empty());
                return parameters;
            },
        };
        let groups = match regex_captures(&regex, str) {
            None => {
                assert(pairs_view(parameters@) =~= Seq::empty());
                return parameters;
            },
            Some(groups) => groups,
        };
        let names = regex_capture_names(&regex);
        let ghost nv = names@.map_values(|n: Option<String>| match n {
            Some(s) => Some(s@),
            None => None,
        });
        let ghost gv = groups@.map_values(|g: Option<String>| match g {
            Some(s) => Some(s@),
            None => None,
        });
        let mut i: usize = 0;
        assert(pairs_view(parameters@) =~= named_captures(nv.take(0), gv));
        while i < names.len()
            invariant
                i <= names@.len(),
                nv == names@.map_values(|n: Option<String>| match n {
                    Some(s) => Some(s@),
                    None => None,
                }),
                gv == groups@.map_values(|g: Option<String>| match g {
                    Some(s) => Some(s@),
                    None => None,
                }),
                pairs_view(parameters@) == named_captures(nv.take(i as int), gv),
            decreases names@.len() - i,
        {
            proof {
                assert(nv.take(i + 1).drop_last() =~= nv.take(i as int));
            }
            let ghost before = parameters@;
            match &names[i] {
                Some(name) => {
                    if i < groups.len() {
                        match &groups[i] {
                            Some(value) => {
                                parameters.push((name.clone(), value.clone()));
                            },
                            None => {},
                        }
                    }
                },
                None => {},
            }
            assert(pairs_view(parameters@) =~= named_captures(nv.take(i + 1), gv));
            i = i + 1;
        }
        assert(nv.take(i as int) =~= nv);
        parameters
    }

    /// Compiles the capturing regex; always succeeds.
    pub fn compile(&mut self) -> (res: bool)
        requires
            old(self).wf(),
        ensures
            res,
            final(self).wf(),
            final(self).spec_pattern() == old(self).spec_pattern(),
            final(self).spec_capture_pattern() == old(self).spec_capture_pattern(),
            final(self).spec_ignore_case() == old(self).spec_ignore_case(),
            final(self).spec_markers() == old(self).spec_markers(),
            final(self).spec_regex_capture().spec_compiled() == spec_regex_compiles(
                seq!['^'] + old(self).spec_capture_pattern() + seq!['$'],
                old(self).spec_ignore_case(),
            ),
    {
        self.regex_capture = self.regex_capture.compile();
        true
    }
}

/// `str` with each variable's tag (`@name`) replaced by its value, in the order of the variables.
pub open spec fn replace_variables(s: Seq<char>, variables: Seq<(Seq<char>, Seq<char>)>) -> Seq<char>
    decreases variables.len(),
{
    if variables.len() == 0 {
        s
    } else {
        replace_all(replace_variables(s, variables.drop_last()), marker_tag(variables.last().0), variables.last().1)
    }
}

impl StaticOrDynamic {
    /// `str` as a marker string where it holds the tag of one of `markers`, as a static
    /// string (lowercase when the case is ignored) otherwise.
    pub fn new_with_markers(str: &str, markers: Vec<Marker>, ignore_case: bool) -> (res: StaticOrDynamic)
        ensures
            ({
                let (r, c, u) = apply_markers(spec_escape(str@), spec_escape(str@), Seq::empty(), sorted_markers(markers@));
                if markers@.len() == 0 || u.len() == 0 {
                    res matches StaticOrDynamic::Static(s) && s@ == if ignore_case { spec_to_lowercase(str@) } else { str@ }
                } else {
                    res matches StaticOrDynamic::Dynamic(m) && m.wf() && m.spec_pattern() == r && m.spec_capture_pattern()
                        == c && m.spec_markers() == u && m.spec_ignore_case() == ignore_case
                        && !m.spec_regex_capture().spec_compiled()
                }
            }),
    {
        if markers.len() == 0 {
            if ignore_case {
                return StaticOrDynamic::Static(to_lowercase(str));
            }
            return StaticOrDynamic::Static(String::from_str(str));
        }
        match MarkerString::new(str, markers, ignore_case) {
            None => StaticOrDynamic::Static(if ignore_case { to_lowercase(str) } else { String::from_str(str) }),
            Some(marker) => StaticOrDynamic::Dynamic(marker),
        }
    }

    /// The named groups that match in `str`; none for a static string.
    pub fn capture(&self, str: &str) -> (res: Vec<(String, String)>)
        requires
            self matches StaticOrDynamic::Dynamic(m) ==> m.wf(),
        ensures
            match self {
                StaticOrDynamic::Static(_) => res@.len() == 0,
                StaticOrDynamic::Dynamic(m) => pairs_view(res@) == m.spec_capture(str@),
            },
    {
        match self {
            StaticOrDynamic::Static(_) => Vec::new(),
            StaticOrDynamic::Dynamic(marker_string) => marker_string.capture(str),
        }
    }

    /// `str` with the tag of each variable replaced by its value.
    pub fn replace(str: String, variables: &[(String, String)]) -> (res: String)
        ensures
            res@ == replace_variables(str@, pairs_view(variables@)),
    {
        let ghost s0 = str@;
        let mut str = str;
        let mut i: usize = 0;
        while i < variables.len()
            invariant
                i <= variables@.len(),
                str@ == replace_variables(s0, pairs_view(variables@.take(i as int))),
            decreases variables@.len() - i,
        {
            let mut tag = String::new();
            push_char(&mut tag, '@');
            tag.append(variables[i].0.as_str());
            str = replace(str.as_str(), tag.as_str(), variables[i].1.as_str());
            proof {
                assert(pairs_view(variables@.take(i + 1)).drop_last() =~= pairs_view(variables@.take(i as int)));
            }
            i = i + 1;
        }
        assert(variables@.take(i as int) =~= variables@);
        str
    }

    /// Compiles a marker string; a static string has nothing to compile.
    pub fn compile(&mut self) -> (res: bool)
        requires
            *old(self) matches StaticOrDynamic::Dynamic(m) ==> m.wf(),
        ensures
            res == (*old(self) is Dynamic),
            match *old(self) {
                StaticOrDynamic::Static(s) => *final(self) == StaticOrDynamic::Static(s),
                StaticOrDynamic::Dynamic(m) => *final(self) matches StaticOrDynamic::Dynamic(n) && n.wf()
                    && n.spec_pattern() == m.spec_pattern() && n.spec_capture_pattern() == m.spec_capture_pattern()
                    && n.spec_markers() == m.spec_markers() && n.spec_ignore_case() == m.spec_ignore_case()
                    && n.spec_regex_capture().spec_compiled() == spec_regex_compiles(
                    seq!['^'] + m.spec_capture_pattern() + seq!['$'],
                    m.spec_ignore_case(),
                ),
            },
    {
        match self {
            StaticOrDynamic::Static(_) => false,
            StaticOrDynamic::Dynamic(marker_string) => marker_string.compile(),
        }
    }
}

} // verus!
