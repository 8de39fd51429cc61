//! What a rule can do to the headers of a response.
use vstd::prelude::*;

pub mod header_add;
pub mod header_default;
pub mod header_override;
pub mod header_remove;
pub mod header_replace;

use crate::action::{TraceRecord, UnitTrace, trace_extended};
use crate::api::HeaderFilter;
use crate::http::header::{
    Header, HeaderRecord, has_named, headers_view, lemma_has_named_push, remove_named, same_name,
};
use crate::text::str_eq;

pub use header_add::HeaderAddAction;
pub use header_default::HeaderDefaultAction;
pub use header_override::HeaderOverrideAction;
pub use header_remove::HeaderRemoveAction;
pub use header_replace::HeaderReplaceAction;

verus! {

/// An action on the headers of a response.
pub trait HeaderAction {
    /// The headers after the action, from the headers before it.
    spec fn spec_filter(&self, headers: Seq<HeaderRecord>) -> Seq<HeaderRecord>;

    /// What the action adds to the trace, from the headers before it.
    spec fn spec_records(&self, headers: Seq<HeaderRecord>) -> Seq<TraceRecord>;

    /// Applies the action to `headers`, and records it in `unit_trace` where there is one.
    fn filter(&self, headers: Vec<Header>, unit_trace: &mut Option<UnitTrace>) -> (res: Vec<Header>)
        ensures
            headers_view(res@) == self.spec_filter(headers_view(headers@)),
            trace_extended(*old(unit_trace), *final(unit_trace), self.spec_records(headers_view(headers@))),
    ;
}

/// One of the header actions.
#[derive(Debug)]
pub enum HeaderActionItem {
    Add(HeaderAddAction),
    Remove(HeaderRemoveAction),
    Replace(HeaderReplaceAction),
    Override(HeaderOverrideAction),
    Default(HeaderDefaultAction),
}

impl HeaderAction for HeaderActionItem {
    open spec fn spec_filter(&self, headers: Seq<HeaderRecord>) -> Seq<HeaderRecord> {
        match self {
            HeaderActionItem::Add(a) => a.spec_filter(headers),
            HeaderActionItem::Remove(a) => a.spec_filter(headers),
            HeaderActionItem::Replace(a) => a.spec_filter(headers),
            HeaderActionItem::Override(a) => a.spec_filter(headers),
            HeaderActionItem::Default(a) => a.spec_filter(headers),
        }
    }

    open spec fn spec_records(&self, headers: Seq<HeaderRecord>) -> Seq<TraceRecord> {
        match self {
            HeaderActionItem::Add(a) => a.spec_records(headers),
            HeaderActionItem::Remove(a) => a.spec_records(headers),
            HeaderActionItem::Replace(a) => a.spec_records(headers),
            HeaderActionItem::Override(a) => a.spec_records(headers),
            HeaderActionItem::Default(a) => a.spec_records(headers),
        }
    }

    fn filter(&self, headers: Vec<Header>, unit_trace: &mut Option<UnitTrace>) -> (res: Vec<Header>) {
        match self {
            HeaderActionItem::Add(a) => a.filter(headers, unit_trace),
            HeaderActionItem::Remove(a) => a.filter(headers, unit_trace),
            HeaderActionItem::Replace(a) => a.filter(headers, unit_trace),
            HeaderActionItem::Override(a) => a.filter(headers, unit_trace),
            HeaderActionItem::Default(a) => a.filter(headers, unit_trace),
        }
    }
}

/// The action that a header filter describes, if its action is one of the five known ones.
pub open spec fn header_action_of(f: HeaderFilter) -> Option<HeaderActionItem> {
    if f.action@ == seq!['a', 'd', 'd'] {
        Some(HeaderActionItem::Add(HeaderAddAction { id: f.id, name: f.header, value: f.value, target_hash: f.target_hash }))
    } else if f.action@ == seq!['r', 'e', 'm', 'o', 'v', 'e'] {
        Some(HeaderActionItem::Remove(HeaderRemoveAction { id: f.id, name: f.header, target_hash: f.target_hash }))
    } else if f.action@ == seq!['r', 'e', 'p', 'l', 'a', 'c', 'e'] {
        Some(HeaderActionItem::Replace(HeaderReplaceAction { id: f.id, name: f.header, value: f.value, target_hash: f.target_hash }))
    } else if f.action@ == seq!['o', 'v', 'e', 'r', 'r', 'i', 'd', 'e'] {
        Some(HeaderActionItem::Override(HeaderOverrideAction { id: f.id, name: f.header, value: f.value, target_hash: f.target_hash }))
    } else if f.action@ == seq!['d', 'e', 'f', 'a', 'u', 'l', 't'] {
        Some(HeaderActionItem::Default(HeaderDefaultAction { id: f.id, name: f.header, value: f.value, target_hash: f.target_hash }))
    } else {
        None
    }
}

/// After a remove action no header of its name is left.
pub proof fn law_remove_leaves_no_header_of_its_name(action: HeaderRemoveAction, headers: Seq<HeaderRecord>)
    ensures
        !has_named(action.spec_filter(headers), action.name@),
    decreases headers.len(),
{
    lemma_remove_named_has_none(headers, action.name@);
}

proof fn lemma_remove_named_has_none(hs: Seq<HeaderRecord>, name: Seq<char>)
    ensures
        !has_named(remove_named(hs, name), name),
    decreases hs.len(),
{
    if hs.len() > 0 {
        lemma_remove_named_has_none(hs.drop_last(), name);
        if !same_name(hs.last().0, name) {
            lemma_has_named_push(remove_named(hs.drop_last(), name), hs.last(), name);
        }
    }
}

/// After a default or an override action a header of its name is there.
pub proof fn law_default_and_override_leave_a_header_of_their_name(
    default: HeaderDefaultAction,
    override_action: HeaderOverrideAction,
    headers: Seq<HeaderRecord>,
)
    ensures
        has_named(default.spec_filter(headers), default.name@),
        has_named(override_action.spec_filter(headers), override_action.name@),
{
    lemma_has_named_push(headers, (default.name@, default.value@), default.name@);
    lemma_has_named_push(headers, (override_action.name@, override_action.value@), override_action.name@);
    if has_named(headers, override_action.name@) {
        let i = choose|i: int| 0 <= i < headers.len() && same_name(#[trigger] headers[i].0, override_action.name@);
        let r = override_action.spec_filter(headers);
        assert(same_name(r[i].0, override_action.name@));
    }
}

/// A default action changes nothing the second time.
pub proof fn law_default_is_idempotent(action: HeaderDefaultAction, headers: Seq<HeaderRecord>)
    ensures
        action.spec_filter(action.spec_filter(headers)) == action.spec_filter(headers),
{
    lemma_has_named_push(headers, (action.name@, action.value@), action.name@);
}

/// A replace action keeps the number and the order of the headers; it changes only the
/// values of the headers of its name.
pub proof fn law_replace_keeps_the_headers_in_place(action: HeaderReplaceAction, headers: Seq<HeaderRecord>)
    ensures
        action.spec_filter(headers).len() == headers.len(),
        forall|i: int| 0 <= i < headers.len() ==> #[trigger] action.spec_filter(headers)[i] == if same_name(headers[i].0, action.name@) {
            (action.name@, action.value@)
        } else {
            headers[i]
        },
{
}

/// A copy of an optional string.
pub fn clone_option(o: &Option<String>) -> (res: Option<String>)
    ensures
        res == *o,
{
    match o {
        None => None,
        Some(s) => Some(s.clone()),
    }
}

/// The action that `header_filter` describes; `None` for an unknown action.
pub fn create_header_action(header_filter: &HeaderFilter) -> (res: Option<HeaderActionItem>)
    ensures
        res == header_action_of(*header_filter),
{
    let action = header_filter.action.as_str();
    proof {
        reveal_strlit("add");
        reveal_strlit("remove");
        reveal_strlit("replace");
        reveal_strlit("override");
        reveal_strlit("default");
        assert("add"@ =~= seq!['a', 'd', 'd']);
        assert("remove"@ =~= seq!['r', 'e', 'm', 'o', 'v', 'e']);
        assert("replace"@ =~= seq!['r', 'e', 'p', 'l', 'a', 'c', 'e']);
        assert("override"@ =~= seq!['o', 'v', 'e', 'r', 'r', 'i', 'd', 'e']);
        assert("default"@ =~= seq!['d', 'e', 'f', 'a', 'u', 'l', 't']);
    }
    if str_eq(action, "add") {
        return Some(HeaderActionItem::Add(HeaderAddAction {
            id: clone_option(&header_filter.id),
            name: header_filter.header.clone(),
            value: header_filter.value.clone(),
            target_hash: clone_option(&header_filter.target_hash),
        }));
    }
    if str_eq(action, "remove") {
        return Some(HeaderActionItem::Remove(HeaderRemoveAction {
            id: clone_option(&header_filter.id),
            name: header_filter.header.clone(),
            target_hash: clone_option(&header_filter.target_hash),
        }));
    }
    if str_eq(action, "replace") {
        return Some(HeaderActionItem::Replace(HeaderReplaceAction {
            id: clone_option(&header_filter.id),
            name: header_filter.header.clone(),
            value: header_filter.value.clone(),
            target_hash: clone_option(&header_filter.target_hash),
        }));
    }
    if str_eq(action, "override") {
        return Some(HeaderActionItem::Override(HeaderOverrideAction {
            id: clone_option(&header_filter.id),
            name: header_filter.header.clone(),
            value: header_filter.value.clone(),
            target_hash: clone_option(&header_filter.target_hash),
        }));
    }
    if str_eq(action, "default") {
        return Some(HeaderActionItem::Default(HeaderDefaultAction {
            id: clone_option(&header_filter.id),
            name: header_filter.header.clone(),
            value: header_filter.value.clone(),
            target_hash: clone_option(&header_filter.target_hash),
        }));
    }
    None
}

} // verus!
