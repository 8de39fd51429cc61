use vstd::prelude::*;

use crate::action::{TraceRecord, UnitTrace, lemma_trace_extended_refl, record_unit, unit_records};
use crate::filter::header_action::HeaderAction;
use crate::http::header::{Header, HeaderRecord, has_named, headers_view, lemma_has_named_push, name_is};
use crate::text::to_lowercase;

verus! {

/// Adds a header only where none of that name is there.
#[derive(Debug)]
pub struct HeaderDefaultAction {
    pub name: String,
    pub value: String,
    pub id: Option<String>,
    pub target_hash: Option<String>,
}

impl HeaderAction for HeaderDefaultAction {
    open spec fn spec_filter(&self, headers: Seq<HeaderRecord>) -> Seq<HeaderRecord> {
        if has_named(headers, self.name@) {
            headers
        } else {
            headers.push((self.name@, self.value@))
        }
    }

    open spec fn spec_records(&self, headers: Seq<HeaderRecord>) -> Seq<TraceRecord> {
        if has_named(headers, self.name@) {
            Seq::<TraceRecord>::empty()
        } else {
            unit_records(self.id, self.target_hash, self.value@, false)
        }
    }

    fn filter(&self, headers: Vec<Header>, unit_trace: &mut Option<UnitTrace>) -> (res: Vec<Header>) {
        let mut headers = headers;
        let ghost hv = headers_view(headers@);
        let lname = to_lowercase(self.name.as_str());
        let mut found = false;
        let mut i: usize = 0;
        while i < headers.len()
            invariant
                i <= headers@.len(),
                hv == headers_view(headers@),
                lname@ == crate::text::spec_to_lowercase(self.name@),
                found == has_named(hv.take(i as int), self.name@),
            decreases headers@.len() - i,
        {
            proof {
                assert(hv.take(i + 1) =~= hv.take(i as int).push(hv[i as int]));
                lemma_has_named_push(hv.take(i as int), hv[i as int], self.name@);
            }
            if name_is(headers[i].name.as_str(), lname.as_str()) {
                found = true;
            }
            i = i + 1;
        }
        assert(hv.take(i as int) =~= hv);
        if !found {
            headers.push(Header { name: self.name.clone(), value: self.value.clone() });
            assert(headers_view(headers@) =~= hv.push((self.name@, self.value@)));
            record_unit(unit_trace, &self.id, &self.target_hash, self.value.as_str(), false);
        } else {
            proof {
                lemma_trace_extended_refl(*unit_trace);
            }
        }
        headers
    }
}

} // verus!
