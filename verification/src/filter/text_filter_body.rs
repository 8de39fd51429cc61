//! Body filters on plain text: add a text before or after the body, or put it in place of the body.
use vstd::prelude::*;

use crate::action::{TraceKind, TraceRecord, UnitTrace, trace_extended};

verus! {

#[derive(Debug, Clone, Copy, PartialEq, Eq, Structural)]
pub enum TextFilterAction {
    Append,
    Prepend,
    Replace,
}

/// A text filter on a body that arrives in chunks.
#[derive(Debug)]
pub struct TextFilterBodyAction {
    id: Option<String>,
    action: TextFilterAction,
    content: Vec<u8>,
    executed: bool,
}

/// What a chunk of the body gives, before the filter has or has not put its text out.
pub open spec fn text_filter_out(action: TextFilterAction, content: Seq<u8>, executed: bool, data: Seq<u8>) -> Seq<u8> {
    match action {
        TextFilterAction::Replace => if executed { Seq::<u8>::empty() } else { content },
        TextFilterAction::Append => data,
        TextFilterAction::Prepend => if executed { data } else { content + data },
    }
}

/// Whether the filter has put its text out after a chunk.
pub open spec fn text_filter_executed(action: TextFilterAction, executed: bool) -> bool {
    match action {
        TextFilterAction::Append => executed,
        _ => true,
    }
}

/// What the end of the body gives.
pub open spec fn text_end_out(content: Seq<u8>, executed: bool) -> Seq<u8> {
    if executed { Seq::<u8>::empty() } else { content }
}

/// What a filter gives over the chunks and then the end of a body.
pub open spec fn text_stream_out(action: TextFilterAction, content: Seq<u8>, executed: bool, chunks: Seq<Seq<u8>>) -> Seq<u8>
    decreases chunks.len(),
{
    if chunks.len() == 0 {
        text_end_out(content, executed)
    } else {
        text_filter_out(action, content, executed, chunks[0]) + text_stream_out(
            action,
            content,
            text_filter_executed(action, executed),
            chunks.drop_first(),
        )
    }
}

/// What a filter adds to the trace on each chunk: the unit, on the `text` target.
pub open spec fn text_records(action: TextFilterAction, id: Option<String>) -> Seq<TraceRecord> {
    match id {
        None => Seq::<TraceRecord>::empty(),
        Some(i) => seq![(
            if action == TextFilterAction::Replace { TraceKind::OverrideUnitIdWithTarget } else { TraceKind::UnitIdWithTarget },
            seq!['t', 'e', 'x', 't'],
            i@,
        )],
    }
}

impl TextFilterBodyAction {
    pub closed spec fn spec_id(&self) -> Option<String> {
        self.id
    }

    pub closed spec fn spec_action(&self) -> TextFilterAction {
        self.action
    }

    /// The text, as UTF-8 bytes.
    pub closed spec fn spec_content(&self) -> Seq<u8> {
        self.content@
    }

    /// Whether the text has been put out.
    pub closed spec fn spec_executed(&self) -> bool {
        self.executed
    }

    pub fn new(id: Option<String>, action: TextFilterAction, content: String) -> (res: Self)
        ensures
            res.spec_id() == id,
            res.spec_action() == action,
            res.spec_content() == vstd::utf8::encode_utf8(content@),
            !res.spec_executed(),
    {
        let bytes = content.as_str().as_bytes_vec();
        TextFilterBodyAction { id, action, content: bytes, executed: false }
    }

    /// Filters a chunk of the body.
    pub fn filter(&mut self, data: Vec<u8>, unit_trace: &mut Option<UnitTrace>) -> (res: Vec<u8>)
        ensures
            res@ == text_filter_out(old(self).spec_action(), old(self).spec_content(), old(self).spec_executed(), data@),
            final(self).spec_executed() == text_filter_executed(old(self).spec_action(), old(self).spec_executed()),
            final(self).spec_id() == old(self).spec_id(),
            final(self).spec_action() == old(self).spec_action(),
            final(self).spec_content() == old(self).spec_content(),
            trace_extended(*old(unit_trace), *final(unit_trace), text_records(old(self).spec_action(), old(self).spec_id())),
    {
        proof {
            reveal_strlit("text");
        }
        assert("text"@ =~= seq!['t', 'e', 'x', 't']);
        let taken = unit_trace.take();
        match taken {
            None => {},
            Some(mut trace) => {
                let ghost before = trace@;
                match &self.id {
                    None => {},
                    Some(id) => {
                        if self.action == TextFilterAction::Replace {
                            trace.override_unit_id_with_target("text", id.as_str());
                        } else {
                            trace.add_unit_id_with_target("text", id.as_str());
                        }
                    },
                }
                assert(trace@ =~= before + text_records(self.action, self.id));
                *unit_trace = Some(trace);
            },
        }
        match self.action {
            TextFilterAction::Replace => {
                if self.executed {
                    Vec::new()
                } else {
                    self.executed = true;
                    self.content.clone()
                }
            },
            TextFilterAction::Append => data,
            TextFilterAction::Prepend => {
                if self.executed {
                    data
                } else {
                    self.executed = true;
                    let mut content = self.content.clone();
                    let mut data = data;
                    content.append(&mut data);
                    content
                }
            },
        }
    }

    /// Ends the body: the text, where it has not been put out yet.
    pub fn end(&mut self) -> (res: Vec<u8>)
        ensures
            res@ == text_end_out(old(self).spec_content(), old(self).spec_executed()),
            final(self).spec_executed(),
            final(self).spec_id() == old(self).spec_id(),
            final(self).spec_action() == old(self).spec_action(),
            final(self).spec_content() == old(self).spec_content(),
    {
        if self.executed {
            Vec::new()
        } else {
            self.executed = true;
            self.content.clone()
        }
    }
}

/// Over a whole body, a text filter puts its text after the body (append), before it
/// (prepend), or in its place (replace), whatever the chunks the body came in.
pub proof fn law_text_filter_over_a_body(action: TextFilterAction, content: Seq<u8>, chunks: Seq<Seq<u8>>)
    ensures
        text_stream_out(action, content, false, chunks) == match action {
            TextFilterAction::Append => chunks.flatten() + content,
            TextFilterAction::Prepend => content + chunks.flatten(),
            TextFilterAction::Replace => content,
        },
    decreases chunks.len(),
{
    if chunks.len() > 0 {
        match action {
            TextFilterAction::Append => {
                law_text_filter_over_a_body(action, content, chunks.drop_first());
                assert(chunks[0] + (chunks.drop_first().flatten() + content) =~= chunks.flatten() + content);
            },
            TextFilterAction::Prepend => {
                lemma_executed_stream_passes_through(action, content, chunks.drop_first());
                assert(content + chunks[0] + chunks.drop_first().flatten() =~= content + chunks.flatten());
            },
            TextFilterAction::Replace => {
                lemma_executed_stream_passes_through(action, content, chunks.drop_first());
                assert(content + Seq::<u8>::empty() =~= content);
            },
        }
    } else {
        assert(Seq::<u8>::empty() + content =~= content);
        assert(content + Seq::<u8>::empty() =~= content);
    }
}

/// `states` are the filter before each chunk and after the last; `outs` are what each call
/// of `filter` gave, as its contract says.
pub open spec fn text_filter_calls(states: Seq<TextFilterBodyAction>, chunks: Seq<Seq<u8>>, outs: Seq<Seq<u8>>) -> bool {
    &&& states.len() == chunks.len() + 1
    &&& outs.len() == chunks.len()
    &&& forall|i: int|
        0 <= i < chunks.len() ==> {
            &&& #[trigger] outs[i] == text_filter_out(
                states[i].spec_action(),
                states[i].spec_content(),
                states[i].spec_executed(),
                chunks[i],
            )
            &&& states[i + 1].spec_executed() == text_filter_executed(states[i].spec_action(), states[i].spec_executed())
            &&& states[i + 1].spec_action() == states[i].spec_action()
            &&& states[i + 1].spec_content() == states[i].spec_content()
        }
}

/// A new text filter called on each chunk of a body and then ended gives, over all its
/// calls, its text after the body (append), before it (prepend), or in its place (replace).
pub proof fn law_text_filter_calls_over_a_body(
    states: Seq<TextFilterBodyAction>,
    chunks: Seq<Seq<u8>>,
    outs: Seq<Seq<u8>>,
    end_out: Seq<u8>,
)
    requires
        text_filter_calls(states, chunks, outs),
        !states[0].spec_executed(),
        end_out == text_end_out(states.last().spec_content(), states.last().spec_executed()),
    ensures
        outs.flatten() + end_out == match states[0].spec_action() {
            TextFilterAction::Append => chunks.flatten() + states[0].spec_content(),
            TextFilterAction::Prepend => states[0].spec_content() + chunks.flatten(),
            TextFilterAction::Replace => states[0].spec_content(),
        },
{
    lemma_calls_follow_stream(states, chunks, outs, end_out);
    law_text_filter_over_a_body(states[0].spec_action(), states[0].spec_content(), chunks);
}

/// What the calls give is what the filter gives over the chunks and the end.
proof fn lemma_calls_follow_stream(
    states: Seq<TextFilterBodyAction>,
    chunks: Seq<Seq<u8>>,
    outs: Seq<Seq<u8>>,
    end_out: Seq<u8>,
)
    requires
        text_filter_calls(states, chunks, outs),
        end_out == text_end_out(states.last().spec_content(), states.last().spec_executed()),
    ensures
        outs.flatten() + end_out == text_stream_out(
            states[0].spec_action(),
            states[0].spec_content(),
            states[0].spec_executed(),
            chunks,
        ),
    decreases chunks.len(),
{
    if chunks.len() == 0 {
        assert(outs.flatten() =~= Seq::<u8>::empty());
        assert(Seq::<u8>::empty() + end_out =~= end_out);
    } else {
        let rest_states = states.drop_first();
        assert forall|i: int| 0 <= i < chunks.len() - 1 implies {
            &&& #[trigger] outs.drop_first()[i] == text_filter_out(
                rest_states[i].spec_action(),
                rest_states[i].spec_content(),
                rest_states[i].spec_executed(),
                chunks.drop_first()[i],
            )
            &&& rest_states[i + 1].spec_executed() == text_filter_executed(
                rest_states[i].spec_action(),
                rest_states[i].spec_executed(),
            )
            &&& rest_states[i + 1].spec_action() == rest_states[i].spec_action()
            &&& rest_states[i + 1].spec_content() == rest_states[i].spec_content()
        } by {
            assert(outs[i + 1] == outs.drop_first()[i]);
        }
        assert(rest_states.last() == states.last());
        lemma_calls_follow_stream(rest_states, chunks.drop_first(), outs.drop_first(), end_out);
        assert(outs[0] == outs.first());
        assert(outs.flatten() == outs[0] + outs.drop_first().flatten());
        assert(outs[0] + outs.drop_first().flatten() + end_out =~= outs[0] + (outs.drop_first().flatten() + end_out));
    }
}

/// Once a prepend or replace filter has put its text out, the rest of the body passes
/// through (prepend) or is dropped (replace).
proof fn lemma_executed_stream_passes_through(action: TextFilterAction, content: Seq<u8>, chunks: Seq<Seq<u8>>)
    requires
        action != TextFilterAction::Append,
    ensures
        text_stream_out(action, content, true, chunks) == if action == TextFilterAction::Prepend {
            chunks.flatten()
        } else {
            Seq::<u8>::empty()
        },
    decreases chunks.len(),
{
    if chunks.len() > 0 {
        lemma_executed_stream_passes_through(action, content, chunks.drop_first());
        assert(Seq::<u8>::empty() + Seq::<u8>::empty() =~= Seq::<u8>::empty());
    }
}

} // verus!
