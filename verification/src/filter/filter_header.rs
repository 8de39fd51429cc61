//! The chain of header actions that the rules of a response ask for.
use vstd::prelude::*;

use crate::action::{TraceRecord, UnitTrace, lemma_trace_extended_refl, lemma_trace_extended_trans, trace_extended};
use crate::api::HeaderFilter;
use crate::filter::header_action::{HeaderAction, HeaderActionItem, create_header_action, header_action_of};
use crate::http::header::{Header, HeaderRecord, headers_view};

verus! {

/// The actions of the filters that describe a known action, in order.
pub open spec fn actions_of(filters: Seq<HeaderFilter>) -> Seq<HeaderActionItem>
    decreases filters.len(),
{
    if filters.len() == 0 {
        Seq::<HeaderActionItem>::empty()
    } else {
        match header_action_of(filters.last()) {
            Some(a) => actions_of(filters.drop_last()).push(a),
            None => actions_of(filters.drop_last()),
        }
    }
}

/// The headers after `actions`, applied in order.
pub open spec fn chain_filter(actions: Seq<HeaderActionItem>, headers: Seq<HeaderRecord>) -> Seq<HeaderRecord>
    decreases actions.len(),
{
    if actions.len() == 0 {
        headers
    } else {
        actions.last().spec_filter(chain_filter(actions.drop_last(), headers))
    }
}

/// What `actions`, applied in order, add to the trace.
pub open spec fn chain_records(actions: Seq<HeaderActionItem>, headers: Seq<HeaderRecord>) -> Seq<TraceRecord>
    decreases actions.len(),
{
    if actions.len() == 0 {
        Seq::<TraceRecord>::empty()
    } else {
        chain_records(actions.drop_last(), headers) + actions.last().spec_records(
            chain_filter(actions.drop_last(), headers),
        )
    }
}

/// The header actions of a response, applied in the order of the rules.
pub struct FilterHeaderAction {
    actions: Vec<HeaderActionItem>,
}

impl FilterHeaderAction {
    /// The actions, in order.
    pub closed spec fn spec_actions(&self) -> Seq<HeaderActionItem> {
        self.actions@
    }

    /// The chain of the actions that `filters` describe; `None` where none describes a known action.
    pub fn new(filters: Vec<HeaderFilter>) -> (res: Option<FilterHeaderAction>)
        ensures
            match res {
                None => actions_of(filters@).len() == 0,
                Some(f) => f.spec_actions() == actions_of(filters@) && actions_of(filters@).len() > 0,
            },
    {
        if filters.len() == 0 {
            return None;
        }
        let mut actions: Vec<HeaderActionItem> = Vec::new();
        let mut i: usize = 0;
        while i < filters.len()
            invariant
                i <= filters@.len(),
                actions@ == actions_of(filters@.take(i as int)),
            decreases filters@.len() - i,
        {
            proof {
                assert(filters@.take(i + 1).drop_last() =~= filters@.take(i as int));
            }
            match create_header_action(&filters[i]) {
                Some(a) => actions.push(a),
                None => {},
            }
            i = i + 1;
        }
        assert(filters@.take(i as int) =~= filters@);
        if actions.len() == 0 {
            return None;
        }
        Some(FilterHeaderAction { actions })
    }

    /// Applies each action in turn to `headers`, and records each in `unit_trace` where there is one.
    pub fn filter(&self, headers: Vec<Header>, unit_trace: &mut Option<UnitTrace>) -> (res: Vec<Header>)
        ensures
            headers_view(res@) == chain_filter(self.spec_actions(), headers_view(headers@)),
            trace_extended(*old(unit_trace), *final(unit_trace), chain_records(self.spec_actions(), headers_view(headers@))),
    {
        let ghost start = *unit_trace;
        let ghost hv = headers_view(headers@);
        let mut headers = headers;
        let mut i: usize = 0;
        proof {
            lemma_trace_extended_refl(*unit_trace);
        }
        while i < self.actions.len()
            invariant
                i <= self.actions@.len(),
                start == *old(unit_trace),
                headers_view(headers@) == chain_filter(self.actions@.take(i as int), hv),
                trace_extended(start, *unit_trace, chain_records(self.actions@.take(i as int), hv)),
            decreases self.actions@.len() - i,
        {
            let ghost mid = *unit_trace;
            let ghost before = headers_view(headers@);
            proof {
                assert(self.actions@.take(i + 1).drop_last() =~= self.actions@.take(i as int));
            }
            headers = self.actions[i].filter(headers, unit_trace);
            proof {
                lemma_trace_extended_trans(
                    start,
                    mid,
                    *unit_trace,
                    chain_records(self.actions@.take(i as int), hv),
                    self.actions@[i as int].spec_records(before),
                );
            }
            i = i + 1;
        }
        assert(self.actions@.take(i as int) =~= self.actions@);
        headers
    }
}

} // verus!
