use vstd::prelude::*;

use crate::action::{TraceRecord, UnitTrace, record_unit, unit_records};
use crate::filter::header_action::HeaderAction;
use crate::http::header::{Header, HeaderRecord, headers_view};

verus! {

/// Adds a header, whether or not one of that name is there.
#[derive(Debug)]
pub struct HeaderAddAction {
    pub name: String,
    pub value: String,
    pub id: Option<String>,
    pub target_hash: Option<String>,
}

impl HeaderAction for HeaderAddAction {
    open spec fn spec_filter(&self, headers: Seq<HeaderRecord>) -> Seq<HeaderRecord> {
        headers.push((self.name@, self.value@))
    }

    open spec fn spec_records(&self, headers: Seq<HeaderRecord>) -> Seq<TraceRecord> {
        unit_records(self.id, self.target_hash, self.value@, false)
    }

    fn filter(&self, headers: Vec<Header>, unit_trace: &mut Option<UnitTrace>) -> (res: Vec<Header>) {
        let mut headers = headers;
        let ghost before = headers@;
        headers.push(Header { name: self.name.clone(), value: self.value.clone() });
        assert(headers_view(headers@) =~= headers_view(before).push((self.name@, self.value@)));
        record_unit(unit_trace, &self.id, &self.target_hash, self.value.as_str(), false);
        headers
    }
}

} // verus!
