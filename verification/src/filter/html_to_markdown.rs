//! Turning an HTML body into Markdown: the body is held until its end, then handed out for
//! the conversion, and what the conversion gives becomes the body.
use vstd::prelude::*;
use vstd::string::*;
use vstd::utf8::*;

use crate::action::{TraceKind, TraceRecord, UnitTrace, trace_extended};
use crate::text::string_from_utf8;

verus! {

/// What the end of an HTML body hands to its conversion.
#[derive(Debug)]
pub enum MarkdownSource {
    /// The body, as UTF-8 text, to convert.
    Html(String),
    /// The body as it came, where it is not UTF-8: it goes out unchanged.
    Bytes(Vec<u8>),
}

/// Holds an HTML body, to turn it into Markdown at its end.
#[derive(Debug)]
pub struct HtmlToMarkdownFilter {
    buffer: Vec<u8>,
    id: Option<String>,
    executed: bool,
}

/// The record of the unit `id` that turned the body into Markdown, where there is an id.
pub open spec fn markdown_records(id: Option<String>) -> Seq<TraceRecord> {
    match id {
        Some(i) => seq![(TraceKind::OverrideUnitIdWithTarget, seq!['t', 'e', 'x', 't'], i@)],
        None => Seq::empty(),
    }
}

impl HtmlToMarkdownFilter {
    /// The body held so far.
    pub closed spec fn spec_buffer(&self) -> Seq<u8> {
        self.buffer@
    }

    pub closed spec fn spec_id(&self) -> Option<String> {
        self.id
    }

    /// Whether the unit has been recorded.
    pub closed spec fn spec_executed(&self) -> bool {
        self.executed
    }

    /// A filter of the unit `id`, holding nothing yet.
    pub fn new(id: Option<String>) -> (res: Self)
        ensures
            res.spec_buffer().len() == 0,
            res.spec_id() == id,
            !res.spec_executed(),
    {
        HtmlToMarkdownFilter { buffer: Vec::new(), id, executed: false }
    }

    /// Holds a chunk of the body: nothing comes out before the end.
    pub fn filter(&mut self, input: Vec<u8>) -> (res: Vec<u8>)
        ensures
            res@.len() == 0,
            final(self).spec_buffer() == old(self).spec_buffer() + input@,
            final(self).spec_id() == old(self).spec_id(),
            final(self).spec_executed() == old(self).spec_executed(),
    {
        let mut input = input;
        self.buffer.append(&mut input);
        Vec::new()
    }

    /// Ends the body: records, once, that the unit acted on the text in place of the others,
    /// and hands out the body held, as text where it is UTF-8 and as it came otherwise.
    pub fn end(self, unit_trace: &mut Option<UnitTrace>) -> (res: MarkdownSource)
        ensures
            trace_extended(
                *old(unit_trace),
                *final(unit_trace),
                if self.spec_executed() {
                    Seq::empty()
                } else {
                    markdown_records(self.spec_id())
                },
            ),
            match res {
                MarkdownSource::Html(s) => valid_utf8(self.spec_buffer()) && s@ == decode_utf8(self.spec_buffer()),
                MarkdownSource::Bytes(b) => !valid_utf8(self.spec_buffer()) && b@ == self.spec_buffer(),
            },
    {
        let ghost before = *unit_trace;
        if !self.executed {
            match (unit_trace, &self.id) {
                (Some(trace), Some(id)) => {
                    trace.override_unit_id_with_target("text", id.as_str());
                },
                _ => {},
            }
        }
        proof {
            reveal_strlit("text");
            assert("text"@ =~= seq!['t', 'e', 'x', 't']);
            if !self.executed {
                assert(markdown_records(self.id) =~= match self.id {
                    Some(i) => seq![(TraceKind::OverrideUnitIdWithTarget, "text"@, i@)],
                    None => Seq::empty(),
                });
            }
            match before {
                Some(t) => {
                    if self.executed || self.id is None {
                        assert(t@ + Seq::<TraceRecord>::empty() =~= t@);
                    }
                },
                None => {},
            }
        }
        let bytes = self.buffer;
        let copy = bytes.clone();
        match string_from_utf8(bytes) {
            Ok(html) => MarkdownSource::Html(html),
            Err(_) => MarkdownSource::Bytes(copy),
        }
    }
}

/// The body that the conversion of `html` gives: the Markdown it made (an empty body where
/// it made none), or the HTML itself where it failed.
pub fn markdown_output(html: String, converted: Result<Option<String>, ()>) -> (res: Vec<u8>)
    ensures
        match converted {
            Ok(Some(md)) => res@ == encode_utf8(md@),
            Ok(None) => res@.len() == 0,
            Err(_) => res@ == encode_utf8(html@),
        },
{
    match converted {
        Ok(Some(md)) => md.as_str().as_bytes_vec(),
        Ok(None) => Vec::new(),
        Err(_) => html.as_str().as_bytes_vec(),
    }
}

} // verus!
