//! HTTP headers as the filters see them: a name and a value, in order.
use vstd::prelude::*;

use crate::text::{spec_to_lowercase, str_eq, to_lowercase};

verus! {

#[derive(Debug, Clone, Hash)]
pub struct Header {
    pub name: String,
    pub value: String,
}

/// A header as plain values: its name and its value.
pub type HeaderRecord = (Seq<char>, Seq<char>);

/// A list of headers as plain values, in order.
pub open spec fn headers_view(hs: Seq<Header>) -> Seq<HeaderRecord> {
    hs.map_values(|h: Header| (h.name@, h.value@))
}

/// Two header names are the same name when they lowercase alike.
pub open spec fn same_name(a: Seq<char>, b: Seq<char>) -> bool {
    spec_to_lowercase(a) == spec_to_lowercase(b)
}

/// Some header of `hs` has the name `name`.
pub open spec fn has_named(hs: Seq<HeaderRecord>, name: Seq<char>) -> bool {
    exists|i: int| 0 <= i < hs.len() && same_name(#[trigger] hs[i].0, name)
}

/// How many headers of `hs` have the name `name`.
pub open spec fn count_named(hs: Seq<HeaderRecord>, name: Seq<char>) -> nat
    decreases hs.len(),
{
    if hs.len() == 0 {
        0
    } else {
        count_named(hs.drop_last(), name) + if same_name(hs.last().0, name) { 1nat } else { 0nat }
    }
}

/// `hs` without the headers named `name`.
pub open spec fn remove_named(hs: Seq<HeaderRecord>, name: Seq<char>) -> Seq<HeaderRecord>
    decreases hs.len(),
{
    if hs.len() == 0 {
        hs
    } else if same_name(hs.last().0, name) {
        remove_named(hs.drop_last(), name)
    } else {
        remove_named(hs.drop_last(), name).push(hs.last())
    }
}

/// `hs` with each header named `name` replaced by `(name, value)`, in its place.
pub open spec fn replace_named(hs: Seq<HeaderRecord>, name: Seq<char>, value: Seq<char>) -> Seq<HeaderRecord> {
    hs.map_values(|h: HeaderRecord| if same_name(h.0, name) { (name, value) } else { h })
}

/// The values of the headers of `hs` named `name`, in order.
pub open spec fn values_named(hs: Seq<HeaderRecord>, name: Seq<char>) -> Seq<Seq<char>>
    decreases hs.len(),
{
    if hs.len() == 0 {
        Seq::empty()
    } else {
        values_named(hs.drop_last(), name) + if same_name(hs.last().0, name) {
            seq![hs.last().1]
        } else {
            Seq::empty()
        }
    }
}

/// The values joined by commas.
pub open spec fn join_commas(values: Seq<Seq<char>>) -> Seq<char>
    decreases values.len(),
{
    if values.len() == 0 {
        Seq::empty()
    } else if values.len() == 1 {
        values[0]
    } else {
        join_commas(values.drop_last()) + seq![','] + values.last()
    }
}

impl Header {
    /// A copy of the header.
    pub fn duplicate(&self) -> (res: Header)
        ensures
            res.name@ == self.name@,
            res.value@ == self.value@,
    {
        Header { name: self.name.clone(), value: self.value.clone() }
    }
}

/// Whether `name` lowercases to `lower`.
pub fn name_is(name: &str, lower: &str) -> (res: bool)
    ensures
        res == (spec_to_lowercase(name@) == lower@),
{
    let l = to_lowercase(name);
    str_eq(l.as_str(), lower)
}

/// `replace_named` of a longer list.
pub proof fn lemma_replace_named_push(hs: Seq<HeaderRecord>, h: HeaderRecord, name: Seq<char>, value: Seq<char>)
    ensures
        replace_named(hs.push(h), name, value) == replace_named(hs, name, value).push(
            if same_name(h.0, name) { (name, value) } else { h },
        ),
{
    assert(replace_named(hs.push(h), name, value) =~= replace_named(hs, name, value).push(
        if same_name(h.0, name) { (name, value) } else { h },
    ));
}

/// `has_named` of a longer list.
pub proof fn lemma_has_named_push(hs: Seq<HeaderRecord>, h: HeaderRecord, name: Seq<char>)
    ensures
        has_named(hs.push(h), name) == (has_named(hs, name) || same_name(h.0, name)),
{
    if has_named(hs, name) {
        let i = choose|i: int| 0 <= i < hs.len() && same_name(#[trigger] hs[i].0, name);
        assert(hs.push(h)[i] == hs[i]);
    }
    if same_name(h.0, name) {
        assert(hs.push(h)[hs.len() as int] == h);
    }
    if has_named(hs.push(h), name) {
        let i = choose|i: int| 0 <= i < hs.push(h).len() && same_name(#[trigger] hs.push(h)[i].0, name);
        if i < hs.len() {
            assert(hs.push(h)[i] == hs[i]);
        }
    }
}

} // verus!
