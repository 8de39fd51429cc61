use vstd::prelude::*;

use crate::action::{TraceRecord, UnitTrace, lemma_trace_extended_refl};
use crate::filter::header_action::HeaderAction;
use crate::http::header::{
    Header, HeaderRecord, has_named, headers_view, lemma_has_named_push, lemma_replace_named_push, name_is, replace_named, same_name,
};
use crate::text::to_lowercase;

verus! {

/// Sets a header: each header of that name takes the new value, and the header is added
/// where none of that name is there.
#[derive(Debug)]
pub struct HeaderOverrideAction {
    pub name: String,
    pub value: String,
    pub id: Option<String>,
    pub target_hash: Option<String>,
}

impl HeaderAction for HeaderOverrideAction {
    open spec fn spec_filter(&self, headers: Seq<HeaderRecord>) -> Seq<HeaderRecord> {
        if has_named(headers, self.name@) {
            replace_named(headers, self.name@, self.value@)
        } else {
            headers.push((self.name@, self.value@))
        }
    }

    open spec fn spec_records(&self, headers: Seq<HeaderRecord>) -> Seq<TraceRecord> {
        Seq::<TraceRecord>::empty()
    }

    fn filter(&self, headers: Vec<Header>, unit_trace: &mut Option<UnitTrace>) -> (res: Vec<Header>) {
        let ghost hv = headers_view(headers@);
        let lname = to_lowercase(self.name.as_str());
        let mut new_headers: Vec<Header> = Vec::new();
        let mut found = false;
        let mut i: usize = 0;
        while i < headers.len()
            invariant
                i <= headers@.len(),
                hv == headers_view(headers@),
                lname@ == crate::text::spec_to_lowercase(self.name@),
                found == has_named(hv.take(i as int), self.name@),
                headers_view(new_headers@) == replace_named(hv.take(i as int), self.name@, self.value@),
            decreases headers@.len() - i,
        {
            proof {
                assert(hv.take(i + 1) =~= hv.take(i as int).push(hv[i as int]));
                lemma_has_named_push(hv.take(i as int), hv[i as int], self.name@);
            }
            let ghost prev = new_headers@;
            if !name_is(headers[i].name.as_str(), lname.as_str()) {
                new_headers.push(headers[i].duplicate());
            } else {
                found = true;
                new_headers.push(Header { name: self.name.clone(), value: self.value.clone() });
            }
            proof {
                assert(hv.take(i + 1) =~= hv.take(i as int).push(hv[i as int]));
                lemma_replace_named_push(hv.take(i as int), hv[i as int], self.name@, self.value@);
                assert(headers_view(new_headers@) =~= replace_named(hv.take(i + 1), self.name@, self.value@));
            }
            i = i + 1;
        }
        assert(hv.take(i as int) =~= hv);
        if !found {
            assert(replace_named(hv, self.name@, self.value@) =~= hv) by {
                assert forall|j: int| 0 <= j < hv.len() implies !same_name(#[trigger] hv[j].0, self.name@) by {}
            }
            let ghost prev = new_headers@;
            new_headers.push(Header { name: self.name.clone(), value: self.value.clone() });
            assert(headers_view(new_headers@) =~= headers_view(prev).push((self.name@, self.value@)));
        }
        proof {
            lemma_trace_extended_refl(*unit_trace);
        }
        new_headers
    }
}

} // verus!
