use vstd::prelude::*;

use crate::action::{TraceRecord, UnitTrace, record_unit, unit_records};
use crate::filter::header_action::HeaderAction;
use crate::http::header::{Header, HeaderRecord, headers_view, name_is, remove_named};
use crate::text::to_lowercase;

verus! {

/// Removes every header of a name.
#[derive(Debug)]
pub struct HeaderRemoveAction {
    pub name: String,
    pub id: Option<String>,
    pub target_hash: Option<String>,
}

impl HeaderAction for HeaderRemoveAction {
    open spec fn spec_filter(&self, headers: Seq<HeaderRecord>) -> Seq<HeaderRecord> {
        remove_named(headers, self.name@)
    }

    open spec fn spec_records(&self, headers: Seq<HeaderRecord>) -> Seq<TraceRecord> {
        unit_records(self.id, self.target_hash, Seq::<char>::empty(), true)
    }

    fn filter(&self, headers: Vec<Header>, unit_trace: &mut Option<UnitTrace>) -> (res: Vec<Header>) {
        let ghost hv = headers_view(headers@);
        let lname = to_lowercase(self.name.as_str());
        let mut new_headers: Vec<Header> = Vec::new();
        let mut i: usize = 0;
        while i < headers.len()
            invariant
                i <= headers@.len(),
                hv == headers_view(headers@),
                lname@ == crate::text::spec_to_lowercase(self.name@),
                headers_view(new_headers@) == remove_named(hv.take(i as int), self.name@),
            decreases headers@.len() - i,
        {
            proof {
                assert(hv.take(i + 1).drop_last() =~= hv.take(i as int));
            }
            let ghost prev = new_headers@;
            if !name_is(headers[i].name.as_str(), lname.as_str()) {
                new_headers.push(headers[i].duplicate());
                assert(headers_view(new_headers@) =~= headers_view(prev).push(hv[i as int]));
            }
            i = i + 1;
        }
        assert(hv.take(i as int) =~= hv);
        proof {
            reveal_strlit("");
        }
        assert(""@ =~= Seq::<char>::empty());
        record_unit(unit_trace, &self.id, &self.target_hash, "", true);
        new_headers
    }
}

} // verus!
