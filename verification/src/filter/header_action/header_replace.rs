use vstd::prelude::*;

use crate::action::{
    TraceRecord, UnitTrace, lemma_trace_extended_refl, lemma_trace_extended_trans, record_unit, repeat_records,
    unit_records,
};
use crate::filter::header_action::HeaderAction;
use crate::http::header::{Header, HeaderRecord, count_named, headers_view, lemma_replace_named_push, name_is, replace_named};
use crate::text::to_lowercase;

verus! {

/// Gives each header of a name a new value, and adds none where there is none.
#[derive(Debug)]
pub struct HeaderReplaceAction {
    pub name: String,
    pub value: String,
    pub id: Option<String>,
    pub target_hash: Option<String>,
}

impl HeaderAction for HeaderReplaceAction {
    open spec fn spec_filter(&self, headers: Seq<HeaderRecord>) -> Seq<HeaderRecord> {
        replace_named(headers, self.name@, self.value@)
    }

    open spec fn spec_records(&self, headers: Seq<HeaderRecord>) -> Seq<TraceRecord> {
        repeat_records(unit_records(self.id, self.target_hash, self.value@, true), count_named(headers, self.name@))
    }

    fn filter(&self, headers: Vec<Header>, unit_trace: &mut Option<UnitTrace>) -> (res: Vec<Header>) {
        let ghost hv = headers_view(headers@);
        let ghost start = *unit_trace;
        let ghost one = unit_records(self.id, self.target_hash, self.value@, true);
        let lname = to_lowercase(self.name.as_str());
        let mut new_headers: Vec<Header> = Vec::new();
        let mut i: usize = 0;
        proof {
            lemma_trace_extended_refl(*unit_trace);
        }
        while i < headers.len()
            invariant
                i <= headers@.len(),
                hv == headers_view(headers@),
                lname@ == crate::text::spec_to_lowercase(self.name@),
                start == *old(unit_trace),
                one == unit_records(self.id, self.target_hash, self.value@, true),
                headers_view(new_headers@) == replace_named(hv.take(i as int), self.name@, self.value@),
                crate::action::trace_extended(start, *unit_trace, repeat_records(one, count_named(hv.take(i as int), self.name@))),
            decreases headers@.len() - i,
        {
            proof {
                assert(hv.take(i + 1).drop_last() =~= hv.take(i as int));
            }
            let ghost prev = new_headers@;
            if name_is(headers[i].name.as_str(), lname.as_str()) {
                new_headers.push(Header { name: self.name.clone(), value: self.value.clone() });
                let ghost mid = *unit_trace;
                record_unit(unit_trace, &self.id, &self.target_hash, self.value.as_str(), true);
                proof {
                    lemma_trace_extended_trans(
                        start,
                        mid,
                        *unit_trace,
                        repeat_records(one, count_named(hv.take(i as int), self.name@)),
                        one,
                    );
                }
            } else {
                new_headers.push(headers[i].duplicate());
            }
            proof {
                assert(hv.take(i + 1) =~= hv.take(i as int).push(hv[i as int]));
                lemma_replace_named_push(hv.take(i as int), hv[i as int], self.name@, self.value@);
                assert(headers_view(new_headers@) =~= replace_named(hv.take(i + 1), self.name@, self.value@));
            }
            i = i + 1;
        }
        assert(hv.take(i as int) =~= hv);
        new_headers
    }
}

} // verus!
