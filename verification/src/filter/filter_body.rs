//! The chain of body filters of a response: the filters the rules ask for, between a
//! decoder and an encoder where the body is compressed.
use vstd::prelude::*;

use crate::action::{UnitTrace, trace_extended};
use crate::api::{BodyFilter, TextAction};
use crate::filter::codec::{DecodeFilterBody, EncodeFilterBody, decode_feed, decode_finish, encode_feed, encode_finish};
use crate::filter::encoding::{SupportedEncoding, encoding_of};
use crate::filter::error::FilterBodyError;
use crate::filter::html_body_action::{HtmlBodyVisitor, visitor_exists};
use crate::filter::text_filter_body::{
    TextFilterAction, TextFilterBodyAction, text_end_out, text_filter_executed, text_filter_out, text_records,
};
use crate::http::header::{Header, HeaderRecord, headers_view};
use crate::text::{contains, seq_contains, spec_to_lowercase, str_eq, to_lowercase};

verus! {

/// The HTML rewriter of the body, which runs the handlers of a visitor as it streams the
/// document through lol_html, and records in the trace what they did. Nothing is stated of
/// what it gives or records: the chain keeps the record of what it handed it and what came
/// back (`HtmlFilterItem`).
pub trait BodyFilterStream: Sized {
    /// A stream that rewrites HTML with the action of `visitor`.
    fn html(visitor: HtmlBodyVisitor) -> Self;

    /// Filters a chunk of the body.
    fn filter(&mut self, data: Vec<u8>, unit_trace: &mut Option<UnitTrace>) -> Result<Vec<u8>, FilterBodyError>;

    /// Ends the body.
    fn end(&mut self, unit_trace: &mut Option<UnitTrace>) -> Result<Vec<u8>, FilterBodyError>;
}

/// What a call of the HTML rewriter gave: its bytes, or nothing where it failed.
pub open spec fn given(r: Result<Vec<u8>, FilterBodyError>) -> Option<Seq<u8>> {
    match r {
        Ok(v) => Some(v@),
        Err(_) => None,
    }
}

/// The HTML rewriter of a chain, with the record of its calls: for each, the chunk it was
/// handed (nothing for the end of the body) and what it gave.
pub struct HtmlFilterItem<S> {
    stream: S,
    calls: Ghost<Seq<(Option<Seq<u8>>, Option<Seq<u8>>)>>,
}

impl<S> HtmlFilterItem<S> {
    /// The calls of the rewriter so far, in order.
    pub closed spec fn spec_calls(&self) -> Seq<(Option<Seq<u8>>, Option<Seq<u8>>)> {
        self.calls@
    }
}

impl<S: BodyFilterStream> HtmlFilterItem<S> {
    /// The rewriter `stream`, not called yet.
    pub fn new(stream: S) -> (res: Self)
        ensures
            res.spec_calls() == Seq::<(Option<Seq<u8>>, Option<Seq<u8>>)>::empty(),
    {
        HtmlFilterItem { stream, calls: Ghost(Seq::empty()) }
    }

    /// Hands the chunk `data` to the rewriter and gives what it gives.
    pub fn filter(&mut self, data: Vec<u8>, unit_trace: &mut Option<UnitTrace>) -> (res: Result<Vec<u8>, FilterBodyError>)
        ensures
            final(self).spec_calls() == old(self).spec_calls().push((Some(data@), given(res))),
    {
        let ghost chunk = data@;
        let res = self.stream.filter(data, unit_trace);
        proof {
            self.calls@ = self.calls@.push((Some(chunk), given(res)));
        }
        res
    }

    /// Ends the body for the rewriter and gives what it gives.
    pub fn end(&mut self, unit_trace: &mut Option<UnitTrace>) -> (res: Result<Vec<u8>, FilterBodyError>)
        ensures
            final(self).spec_calls() == old(self).spec_calls().push((None, given(res))),
    {
        let res = self.stream.end(unit_trace);
        proof {
            self.calls@ = self.calls@.push((None, given(res)));
        }
        res
    }
}

/// The kinds of the filters of a chain.
#[derive(Debug, Clone, Copy, PartialEq, Eq, Structural)]
pub enum FilterKind {
    Html,
    Text,
    Encode,
    Decode,
}

/// One filter of the chain.
pub enum FilterBodyActionItem<S> {
    Html(HtmlFilterItem<S>),
    Text(TextFilterBodyAction),
    Encode(EncodeFilterBody),
    Decode(DecodeFilterBody),
}

impl<S> FilterBodyActionItem<S> {
    pub open spec fn kind(&self) -> FilterKind {
        match self {
            FilterBodyActionItem::Html(_) => FilterKind::Html,
            FilterBodyActionItem::Text(_) => FilterKind::Text,
            FilterBodyActionItem::Encode(_) => FilterKind::Encode,
            FilterBodyActionItem::Decode(_) => FilterKind::Decode,
        }
    }
}

/// The kinds of a list of filters.
pub open spec fn kinds<S>(items: Seq<FilterBodyActionItem<S>>) -> Seq<FilterKind> {
    items.map_values(|i: FilterBodyActionItem<S>| i.kind())
}

/// `u` is the text filter `t` once a chunk has gone through it.
pub open spec fn text_after_chunk(t: TextFilterBodyAction, u: TextFilterBodyAction) -> bool {
    &&& u.spec_executed() == text_filter_executed(t.spec_action(), t.spec_executed())
    &&& u.spec_id() == t.spec_id()
    &&& u.spec_action() == t.spec_action()
    &&& u.spec_content() == t.spec_content()
}

/// `u` is the text filter `t` once the body has ended.
pub open spec fn text_after_end(t: TextFilterBodyAction, u: TextFilterBodyAction) -> bool {
    &&& u.spec_executed()
    &&& u.spec_id() == t.spec_id()
    &&& u.spec_action() == t.spec_action()
    &&& u.spec_content() == t.spec_content()
}

/// Every filter of the chain is a text filter.
pub open spec fn all_text(k: Seq<FilterKind>) -> bool {
    forall|i: int| 0 <= i < k.len() ==> k[i] == FilterKind::Text
}

/// What a filter other than an HTML rewriter gives for a chunk; `None` where it fails.
pub open spec fn item_out<S>(item: FilterBodyActionItem<S>, data: Seq<u8>) -> Option<Seq<u8>> {
    match item {
        FilterBodyActionItem::Text(t) => Some(text_filter_out(t.spec_action(), t.spec_content(), t.spec_executed(), data)),
        FilterBodyActionItem::Decode(d) => decode_feed(d.encoding(), d.input(), data),
        FilterBodyActionItem::Encode(e) => encode_feed(e.encoding(), e.input(), data),
        FilterBodyActionItem::Html(_) => None,
    }
}

/// What a filter other than an HTML rewriter gives at the end of the body, where `data` is
/// what the filters before it gave at their end: what it makes of that data, if any, and
/// then its own end; `None` where it fails.
pub open spec fn item_end_out<S>(item: FilterBodyActionItem<S>, data: Seq<u8>) -> Option<Seq<u8>> {
    match item {
        FilterBodyActionItem::Text(t) => Some(
            if data.len() == 0 {
                text_end_out(t.spec_content(), t.spec_executed())
            } else {
                text_filter_out(t.spec_action(), t.spec_content(), t.spec_executed(), data) + text_end_out(
                    t.spec_content(),
                    text_filter_executed(t.spec_action(), t.spec_executed()),
                )
            },
        ),
        FilterBodyActionItem::Decode(d) => if data.len() == 0 {
            decode_finish(d.encoding(), d.input())
        } else {
            match decode_feed(d.encoding(), d.input(), data) {
                None => None,
                Some(o) => match decode_finish(d.encoding(), d.input().push(data)) {
                    None => None,
                    Some(f) => Some(o + f),
                },
            }
        },
        FilterBodyActionItem::Encode(e) => if data.len() == 0 {
            encode_finish(e.encoding(), e.input())
        } else {
            match encode_feed(e.encoding(), e.input(), data) {
                None => None,
                Some(o) => match encode_finish(e.encoding(), e.input().push(data)) {
                    None => None,
                    Some(f) => Some(o + f),
                },
            }
        },
        FilterBodyActionItem::Html(_) => None,
    }
}

/// What an item gave for the chunk `data`, read from its state before (`a`) and after (`b`)
/// the call: what the HTML rewriter was recorded to give, what the others give.
pub open spec fn step_out<S>(a: FilterBodyActionItem<S>, b: FilterBodyActionItem<S>, data: Seq<u8>) -> Option<Seq<u8>> {
    match (a, b) {
        (FilterBodyActionItem::Html(_), FilterBodyActionItem::Html(h)) => h.spec_calls().last().1,
        _ => item_out(a, data),
    }
}

/// In that call, an HTML rewriter was handed `data`, once.
pub open spec fn step_handed<S>(a: FilterBodyActionItem<S>, b: FilterBodyActionItem<S>, data: Seq<u8>) -> bool {
    match (a, b) {
        (FilterBodyActionItem::Html(h0), FilterBodyActionItem::Html(h1)) => h1.spec_calls() == h0.spec_calls().push(
            (Some(data), h1.spec_calls().last().1),
        ),
        (FilterBodyActionItem::Html(_), _) => false,
        _ => true,
    }
}

/// What an item gave at the end of the body, where `data` is what the items before it gave
/// at their end: what it made of that data, if any, and then its own end.
pub open spec fn end_step_out<S>(a: FilterBodyActionItem<S>, b: FilterBodyActionItem<S>, data: Seq<u8>) -> Option<Seq<u8>> {
    match (a, b) {
        (FilterBodyActionItem::Html(h0), FilterBodyActionItem::Html(h1)) => if data.len() == 0 {
            h1.spec_calls().last().1
        } else {
            match h1.spec_calls()[h0.spec_calls().len() as int].1 {
                None => None,
                Some(o) => match h1.spec_calls().last().1 {
                    None => None,
                    Some(f) => Some(o + f),
                },
            }
        },
        _ => item_end_out(a, data),
    }
}

/// At the end of the body, an HTML rewriter was handed `data`, if any, and then the end;
/// the end only where the chunk went through.
pub open spec fn end_step_handed<S>(a: FilterBodyActionItem<S>, b: FilterBodyActionItem<S>, data: Seq<u8>) -> bool {
    match (a, b) {
        (FilterBodyActionItem::Html(h0), FilterBodyActionItem::Html(h1)) => if data.len() == 0 {
            h1.spec_calls() == h0.spec_calls().push((None, h1.spec_calls().last().1))
        } else {
            let first = (Some(data), h1.spec_calls()[h0.spec_calls().len() as int].1);
            if first.1 is None {
                h1.spec_calls() == h0.spec_calls().push(first)
            } else {
                h1.spec_calls() == h0.spec_calls().push(first).push((None, h1.spec_calls().last().1))
            }
        },
        (FilterBodyActionItem::Html(_), _) => false,
        _ => true,
    }
}

/// What a chunk gives through a chain whose items were `c0` before and are `c1` after: each
/// item in turn is handed what the one before gave, up to the first that gives nothing;
/// `None` where an item fails.
pub open spec fn chain_result<S>(c0: Seq<FilterBodyActionItem<S>>, c1: Seq<FilterBodyActionItem<S>>, data: Seq<u8>) -> Option<Seq<u8>>
    decreases c0.len(),
{
    if c0.len() == 0 || c1.len() == 0 {
        Some(data)
    } else {
        match step_out(c0[0], c1[0], data) {
            None => None,
            Some(o) => if o.len() == 0 {
                Some(o)
            } else {
                chain_result(c0.drop_first(), c1.drop_first(), o)
            },
        }
    }
}

/// Each HTML rewriter that a chunk reached in that chain was handed what the item before it
/// gave.
pub open spec fn chain_handed<S>(c0: Seq<FilterBodyActionItem<S>>, c1: Seq<FilterBodyActionItem<S>>, data: Seq<u8>) -> bool
    decreases c0.len(),
{
    if c0.len() == 0 || c1.len() == 0 {
        true
    } else {
        &&& step_handed(c0[0], c1[0], data)
        &&& match step_out(c0[0], c1[0], data) {
            Some(o) => o.len() > 0 ==> chain_handed(c0.drop_first(), c1.drop_first(), o),
            None => true,
        }
    }
}

/// What the end of the body gives through a chain whose items were `c0` before and are `c1`
/// after, where `data` is what the items before have given at their end; `None` where an item
/// fails.
pub open spec fn chain_end_result<S>(c0: Seq<FilterBodyActionItem<S>>, c1: Seq<FilterBodyActionItem<S>>, data: Seq<u8>) -> Option<Seq<u8>>
    decreases c0.len(),
{
    if c0.len() == 0 || c1.len() == 0 {
        Some(data)
    } else {
        match end_step_out(c0[0], c1[0], data) {
            None => None,
            Some(o) => chain_end_result(c0.drop_first(), c1.drop_first(), o),
        }
    }
}

/// Each HTML rewriter that the end of the body reached in that chain was handed what the item
/// before it gave at its end, and then the end.
pub open spec fn chain_end_handed<S>(c0: Seq<FilterBodyActionItem<S>>, c1: Seq<FilterBodyActionItem<S>>, data: Seq<u8>) -> bool
    decreases c0.len(),
{
    if c0.len() == 0 || c1.len() == 0 {
        true
    } else {
        &&& end_step_handed(c0[0], c1[0], data)
        &&& match end_step_out(c0[0], c1[0], data) {
            Some(o) => chain_end_handed(c0.drop_first(), c1.drop_first(), o),
            None => true,
        }
    }
}

/// What a chunk gives through a chain of text filters: each filter in turn, up to the
/// first that gives nothing.
pub open spec fn text_chain_out<S>(items: Seq<FilterBodyActionItem<S>>, data: Seq<u8>) -> Seq<u8>
    decreases items.len(),
{
    if items.len() == 0 {
        data
    } else {
        let t = items[0]->Text_0;
        let out = text_filter_out(t.spec_action(), t.spec_content(), t.spec_executed(), data);
        if out.len() == 0 {
            out
        } else {
            text_chain_out(items.drop_first(), out)
        }
    }
}

/// What the end of the body gives through a chain of text filters, where `data` is what
/// the filters before have given at their end: each filter gives what it makes of that
/// data, if any, and then its own end.
pub open spec fn text_chain_end<S>(items: Seq<FilterBodyActionItem<S>>, data: Seq<u8>) -> Seq<u8>
    decreases items.len(),
{
    if items.len() == 0 {
        data
    } else {
        let t = items[0]->Text_0;
        let out = if data.len() == 0 {
            text_end_out(t.spec_content(), t.spec_executed())
        } else {
            text_filter_out(t.spec_action(), t.spec_content(), t.spec_executed(), data) + text_end_out(
                t.spec_content(),
                text_filter_executed(t.spec_action(), t.spec_executed()),
            )
        };
        text_chain_end(items.drop_first(), out)
    }
}

/// The lowercase value of the last header named `name` (lowercase), if any.
pub open spec fn last_header_value(headers: Seq<HeaderRecord>, name: Seq<char>) -> Option<Seq<char>>
    decreases headers.len(),
{
    if headers.len() == 0 {
        None
    } else if spec_to_lowercase(headers.last().0) == name {
        Some(spec_to_lowercase(headers.last().1))
    } else {
        last_header_value(headers.drop_last(), name)
    }
}

/// `content-type`.
pub open spec fn content_type_name() -> Seq<char> {
    seq!['c', 'o', 'n', 't', 'e', 'n', 't', '-', 't', 'y', 'p', 'e']
}

/// `content-encoding`.
pub open spec fn content_encoding_name() -> Seq<char> {
    seq!['c', 'o', 'n', 't', 'e', 'n', 't', '-', 'e', 'n', 'c', 'o', 'd', 'i', 'n', 'g']
}

/// `text/html`.
pub open spec fn text_html() -> Seq<char> {
    seq!['t', 'e', 'x', 't', '/', 'h', 't', 'm', 'l']
}

/// The kind of filter that a body filter gives, given the content type of the body: an
/// HTML filter only for HTML (or a body of no stated type) and where it describes an action.
pub open spec fn filter_kind_of(filter: BodyFilter, content_type: Option<Seq<char>>) -> Option<FilterKind> {
    match filter {
        BodyFilter::HTML(h) => {
            let html = match content_type {
                Some(t) => seq_contains(t, text_html()),
                None => true,
            };
            if html && visitor_exists(h) {
                Some(FilterKind::Html)
            } else {
                None
            }
        },
        BodyFilter::Text(_) => Some(FilterKind::Text),
    }
}

/// The kinds of the filters that `filters` give, in order.
pub open spec fn filter_kinds(filters: Seq<BodyFilter>, content_type: Option<Seq<char>>) -> Seq<FilterKind>
    decreases filters.len(),
{
    if filters.len() == 0 {
        Seq::empty()
    } else {
        filter_kinds(filters.drop_last(), content_type) + match filter_kind_of(filters.last(), content_type) {
            Some(k) => seq![k],
            None => Seq::empty(),
        }
    }
}

/// The kinds of the chain for `filters` on a body with `headers`: the filters, between a
/// decoder and an encoder where the body has a supported encoding; no filter at all where
/// its encoding is not supported.
pub open spec fn chain_kinds(filters: Seq<BodyFilter>, headers: Seq<HeaderRecord>) -> Seq<FilterKind> {
    let inner = filter_kinds(filters, last_header_value(headers, content_type_name()));
    if inner.len() == 0 {
        inner
    } else {
        match last_header_value(headers, content_encoding_name()) {
            None => inner,
            Some(e) => match encoding_of(e) {
                Some(_) => seq![FilterKind::Decode] + inner + seq![FilterKind::Encode],
                None => Seq::empty(),
            },
        }
    }
}

/// The action of a text filter that a text body filter asks for.
pub open spec fn text_action_of(action: TextAction) -> TextFilterAction {
    match action {
        TextAction::Append => TextFilterAction::Append,
        TextAction::Prepend => TextFilterAction::Prepend,
        TextAction::Replace => TextFilterAction::Replace,
    }
}

/// `item` is the filter made of `filter`: a text filter with the same id, action and text,
/// not yet put out; an HTML rewriter for an HTML filter.
pub open spec fn item_made_of<S>(filter: BodyFilter, item: FilterBodyActionItem<S>) -> bool {
    match filter {
        BodyFilter::Text(t) => item matches FilterBodyActionItem::Text(u) && {
            &&& u.spec_id() == t.id
            &&& u.spec_action() == text_action_of(t.action)
            &&& u.spec_content() == vstd::utf8::encode_utf8(t.content@)
            &&& !u.spec_executed()
        },
        BodyFilter::HTML(_) => item is Html,
    }
}

/// `items` are the filters made of `filters`, in order, on a body of type `content_type`:
/// one for each filter that gives one.
pub open spec fn items_made_of<S>(
    filters: Seq<BodyFilter>,
    content_type: Option<Seq<char>>,
    items: Seq<FilterBodyActionItem<S>>,
) -> bool
    decreases filters.len(),
{
    if filters.len() == 0 {
        items.len() == 0
    } else {
        match filter_kind_of(filters.last(), content_type) {
            Some(_) => {
                &&& items.len() > 0
                &&& item_made_of(filters.last(), items.last())
                &&& items_made_of(filters.drop_last(), content_type, items.drop_last())
            },
            None => items_made_of(filters.drop_last(), content_type, items),
        }
    }
}

/// `chain` is the chain for `filters` on a body with `headers`: the filters made of them, in
/// order, between a decoder and an encoder of the body's encoding where it has a supported
/// one; no filter at all where none is made or the encoding is not supported.
pub open spec fn chain_made_of<S>(
    filters: Seq<BodyFilter>,
    headers: Seq<HeaderRecord>,
    chain: Seq<FilterBodyActionItem<S>>,
) -> bool {
    let ct = last_header_value(headers, content_type_name());
    if filter_kinds(filters, ct).len() == 0 {
        chain.len() == 0
    } else {
        match last_header_value(headers, content_encoding_name()) {
            None => items_made_of(filters, ct, chain),
            Some(e) => match encoding_of(e) {
                Some(enc) => {
                    &&& chain.len() >= 2
                    &&& chain[0] matches FilterBodyActionItem::Decode(d) && d.encoding() == enc && d.input()
                        == Seq::<Seq<u8>>::empty()
                    &&& chain.last() matches FilterBodyActionItem::Encode(c) && c.encoding() == enc && c.input()
                        == Seq::<Seq<u8>>::empty()
                    &&& items_made_of(filters, ct, chain.subrange(1, chain.len() - 1))
                },
                None => chain.len() == 0,
            },
        }
    }
}

/// The decoder and the encoder of the content encoding `encoding` names, if it is supported.
pub fn get_encoding_filters(encoding: &str) -> (res: Option<(DecodeFilterBody, EncodeFilterBody)>)
    ensures
        match encoding_of(encoding@) {
            Some(e) => res matches Some((d, c)) && d.encoding() == e && c.encoding() == e && d.input()
                == Seq::<Seq<u8>>::empty() && c.input() == Seq::<Seq<u8>>::empty(),
            None => res is None,
        },
{
    match SupportedEncoding::from_name(encoding) {
        Some(supported) => Some((DecodeFilterBody::new(supported), EncodeFilterBody::new(supported))),
        None => None,
    }
}

/// The filters of the body of a response, in order.
pub struct FilterBodyAction<S> {
    chain: Vec<FilterBodyActionItem<S>>,
    in_error: bool,
}

impl<S: BodyFilterStream> FilterBodyActionItem<S> {
    /// The filter that `filter` gives on a body of type `content_type`.
    pub fn new(filter: BodyFilter, content_type: &Option<String>) -> (res: Option<Self>)
        ensures
            match res {
                Some(item) => filter_kind_of(filter, crate::text::opt_view(*content_type)) == Some(item.kind())
                    && item_made_of(filter, item),
                None => filter_kind_of(filter, crate::text::opt_view(*content_type)) is None,
            },
    {
        match filter {
            BodyFilter::HTML(html_body_filter) => {
                let html = match content_type {
                    Some(t) => {
                        proof {
                            reveal_strlit("text/html");
                            assert("text/html"@ =~= text_html());
                        }
                        contains(t.as_str(), "text/html")
                    },
                    None => true,
                };
                if !html {
                    return None;
                }
                match HtmlBodyVisitor::new(html_body_filter) {
                    Some(visitor) => Some(FilterBodyActionItem::Html(HtmlFilterItem::new(S::html(visitor)))),
                    None => None,
                }
            },
            BodyFilter::Text(text_body_filter) => {
                let action = match text_body_filter.action {
                    TextAction::Append => TextFilterAction::Append,
                    TextAction::Prepend => TextFilterAction::Prepend,
                    TextAction::Replace => TextFilterAction::Replace,
                };
                Some(FilterBodyActionItem::Text(TextFilterBodyAction::new(text_body_filter.id, action, text_body_filter.content)))
            },
        }
    }

    /// Filters a chunk with this filter.
    pub fn filter(&mut self, data: Vec<u8>, unit_trace: &mut Option<UnitTrace>) -> (res: Result<Vec<u8>, FilterBodyError>)
        ensures
            final(self).kind() == old(self).kind(),
            match *old(self) {
                FilterBodyActionItem::Text(t) => {
                    &&& *final(self) matches FilterBodyActionItem::Text(u) && text_after_chunk(t, u)
                    &&& res matches Ok(d) && d@ == text_filter_out(t.spec_action(), t.spec_content(), t.spec_executed(), data@)
                    &&& trace_extended(*old(unit_trace), *final(unit_trace), text_records(t.spec_action(), t.spec_id()))
                },
                FilterBodyActionItem::Html(_) => true,
                FilterBodyActionItem::Decode(d) => {
                    &&& *final(self) matches FilterBodyActionItem::Decode(d2) && d2.encoding() == d.encoding()
                        && d2.input() == d.input().push(data@)
                    &&& *final(unit_trace) == *old(unit_trace)
                },
                FilterBodyActionItem::Encode(e) => {
                    &&& *final(self) matches FilterBodyActionItem::Encode(e2) && e2.encoding() == e.encoding()
                        && e2.input() == e.input().push(data@)
                    &&& *final(unit_trace) == *old(unit_trace)
                },
            },
            step_handed(*old(self), *final(self), data@),
            match step_out(*old(self), *final(self), data@) {
                Some(o) => res matches Ok(v) && v@ == o,
                None => res is Err,
            },
    {
        match self {
            FilterBodyActionItem::Html(s) => s.filter(data, unit_trace),
            FilterBodyActionItem::Text(t) => Ok(t.filter(data, unit_trace)),
            FilterBodyActionItem::Decode(s) => s.filter(data),
            FilterBodyActionItem::Encode(s) => s.filter(data),
        }
    }

    /// Ends the body for this filter.
    pub fn end(&mut self, unit_trace: &mut Option<UnitTrace>) -> (res: Result<Vec<u8>, FilterBodyError>)
        ensures
            final(self).kind() == old(self).kind(),
            *old(self) matches FilterBodyActionItem::Text(t) ==> {
                &&& *final(self) matches FilterBodyActionItem::Text(u) && text_after_end(t, u)
                &&& res matches Ok(d) && d@ == text_end_out(t.spec_content(), t.spec_executed())
            },
            !(*old(self) is Html) ==> *final(unit_trace) == *old(unit_trace),
            !(*old(self) is Html) ==> match item_end_out(*old(self), Seq::<u8>::empty()) {
                Some(o) => res matches Ok(v) && v@ == o,
                None => res is Err,
            },
            *old(self) matches FilterBodyActionItem::Html(h0) ==> (*final(self) matches FilterBodyActionItem::Html(h1)
                && h1.spec_calls() == h0.spec_calls().push((None, given(res)))),
    {
        match self {
            FilterBodyActionItem::Html(s) => s.end(unit_trace),
            FilterBodyActionItem::Text(t) => Ok(t.end()),
            FilterBodyActionItem::Decode(s) => s.end(),
            FilterBodyActionItem::Encode(s) => s.end(),
        }
    }
}

impl<S: BodyFilterStream> FilterBodyAction<S> {
    /// The kinds of the filters of the chain.
    pub closed spec fn spec_kinds(&self) -> Seq<FilterKind> {
        kinds(self.chain@)
    }

    /// The filters of the chain.
    pub closed spec fn spec_chain(&self) -> Seq<FilterBodyActionItem<S>> {
        self.chain@
    }

    /// Whether a filter failed: the body then passes as it is.
    pub closed spec fn spec_in_error(&self) -> bool {
        self.in_error
    }

    /// The chain for `filters` on a body with `headers`.
    pub fn new(filters: Vec<BodyFilter>, headers: &[Header]) -> (res: Self)
        ensures
            res.spec_kinds() == chain_kinds(filters@, headers_view(headers@)),
            chain_made_of(filters@, headers_view(headers@), res.spec_chain()),
            !res.spec_in_error(),
    {
        let ghost hv = headers_view(headers@);
        let mut content_type: Option<String> = None;
        let mut content_encoding: Option<String> = None;
        proof {
            reveal_strlit("content-type");
            reveal_strlit("content-encoding");
            assert("content-type"@ =~= content_type_name());
            assert("content-encoding"@ =~= content_encoding_name());
        }
        let mut i: usize = 0;
        while i < headers.len()
            invariant
                i <= headers@.len(),
                hv == headers_view(headers@),
                crate::text::opt_view(content_type) == last_header_value(hv.take(i as int), content_type_name()),
                crate::text::opt_view(content_encoding) == last_header_value(hv.take(i as int), content_encoding_name()),
            decreases headers@.len() - i,
        {
            proof {
                assert(hv.take(i + 1).drop_last() =~= hv.take(i as int));
                assert(hv.take(i + 1).last() == (headers@[i as int].name@, headers@[i as int].value@));
                reveal_strlit("content-type");
                reveal_strlit("content-encoding");
                assert("content-type"@ =~= content_type_name());
                assert("content-encoding"@ =~= content_encoding_name());
                assert(content_type_name() != content_encoding_name()) by {
                    assert(content_type_name().len() != content_encoding_name().len());
                }
            }
            let name = to_lowercase(headers[i].name.as_str());
            if str_eq(name.as_str(), "content-encoding") {
                content_encoding = Some(to_lowercase(headers[i].value.as_str()));
            }
            if str_eq(name.as_str(), "content-type") {
                content_type = Some(to_lowercase(headers[i].value.as_str()));
            }
            i = i + 1;
        }
        assert(hv.take(i as int) =~= hv);
        let ghost ct = crate::text::opt_view(content_type);
        let mut chain: Vec<FilterBodyActionItem<S>> = Vec::new();
        let mut filters = filters;
        let ghost fs = filters@;
        let ghost mut n: int = 0;
        proof {
            assert(fs.take(0) =~= Seq::<BodyFilter>::empty());
            assert(fs.skip(0) =~= fs);
            assert(kinds(chain@) =~= Seq::<FilterKind>::empty());
        }
        while filters.len() > 0
            invariant
                0 <= n <= fs.len(),
                fs.len() == n + filters@.len(),
                filters@ == fs.skip(n),
                ct == crate::text::opt_view(content_type),
                kinds(chain@) == filter_kinds(fs.take(n), ct),
                items_made_of(fs.take(n), ct, chain@),
            decreases filters@.len(),
        {
            let filter = filters.remove(0);
            proof {
                assert(filters@ =~= fs.skip(n + 1));
                assert(fs.skip(n)[0] == fs[n]);
                assert(fs.take(n + 1).drop_last() =~= fs.take(n));
            }
            let ghost before = chain@;
            match FilterBodyActionItem::new(filter, &content_type) {
                Some(item) => {
                    chain.push(item);
                    assert(kinds(chain@) =~= kinds(before).push(item.kind()));
                    assert(chain@.drop_last() =~= before);
                },
                None => {},
            }
            proof {
                n = n + 1;
            }
            assert(kinds(chain@) =~= filter_kinds(fs.take(n), ct));
        }
        assert(fs.take(n) =~= fs);
        if chain.len() == 0 {
            return FilterBodyAction { chain, in_error: false };
        }
        match content_encoding {
            None => FilterBodyAction { chain, in_error: false },
            Some(encoding) => match get_encoding_filters(encoding.as_str()) {
                Some((decode, encode)) => {
                    let ghost inner = chain@;
                    chain.insert(0, FilterBodyActionItem::Decode(decode));
                    chain.push(FilterBodyActionItem::Encode(encode));
                    assert(kinds(chain@) =~= seq![FilterKind::Decode] + kinds(inner) + seq![FilterKind::Encode]);
                    assert(chain@.subrange(1, chain@.len() - 1) =~= inner);
                    FilterBodyAction { chain, in_error: false }
                },
                None => {
                    let empty: Vec<FilterBodyActionItem<S>> = Vec::new();
                    assert(kinds(empty@) =~= Seq::<FilterKind>::empty());
                    FilterBodyAction { chain: empty, in_error: false }
                },
            },
        }
    }

    /// Whether the chain has no filter.
    pub fn is_empty(&self) -> (res: bool)
        ensures
            res == (self.spec_kinds().len() == 0),
    {
        self.chain.len() == 0
    }

    /// Filters a chunk of the body through the chain: each filter in turn is handed what the
    /// one before gave. Where a filter fails, the chunk comes back as it was and the action
    /// stays in error: from then on the body passes through as it is.
    pub fn filter(&mut self, data: Vec<u8>, unit_trace: &mut Option<UnitTrace>) -> (res: Vec<u8>)
        ensures
            final(self).spec_kinds() == old(self).spec_kinds(),
            old(self).spec_in_error() ==> final(self).spec_in_error() && res@ == data@,
            old(self).spec_kinds().len() == 0 ==> res@ == data@ && final(self).spec_in_error() == old(self).spec_in_error(),
            final(self).spec_in_error() ==> res@ == data@,
            !old(self).spec_in_error() ==> chain_handed(old(self).spec_chain(), final(self).spec_chain(), data@),
            !old(self).spec_in_error() ==> match chain_result(old(self).spec_chain(), final(self).spec_chain(), data@) {
                Some(o) => res@ == o && !final(self).spec_in_error(),
                None => res@ == data@ && final(self).spec_in_error(),
            },
            !old(self).spec_in_error() && all_text(old(self).spec_kinds()) ==> !final(self).spec_in_error()
                && res@ == text_chain_out(old(self).spec_chain(), data@),
    {
        if self.in_error {
            return data;
        }
        let ghost c0 = self.chain@;
        let ghost d0 = data@;
        assert(c0.skip(0) =~= c0);
        let r = self.filter_from(0, clone_bytes(&data), unit_trace);
        proof {
            assert(self.chain@.skip(0) =~= self.chain@);
            if all_text(kinds(c0)) {
                lemma_text_chain_result(c0, self.chain@, d0);
            }
        }
        match r {
            Ok(filtered) => filtered,
            Err(_) => {
                self.in_error = true;
                data
            },
        }
    }

    /// Filters `data` through the items from `i` on.
    fn filter_from(&mut self, i: usize, data: Vec<u8>, unit_trace: &mut Option<UnitTrace>) -> (res: Result<Vec<u8>, FilterBodyError>)
        requires
            i <= old(self).chain@.len(),
        ensures
            final(self).chain@.len() == old(self).chain@.len(),
            final(self).chain@.take(i as int) == old(self).chain@.take(i as int),
            kinds(final(self).chain@) == kinds(old(self).chain@),
            final(self).in_error == old(self).in_error,
            chain_handed(old(self).chain@.skip(i as int), final(self).chain@.skip(i as int), data@),
            match chain_result(old(self).chain@.skip(i as int), final(self).chain@.skip(i as int), data@) {
                Some(o) => res matches Ok(v) && v@ == o,
                None => res is Err,
            },
        decreases old(self).chain@.len() - i,
    {
        if i >= self.chain.len() {
            return Ok(data);
        }
        let ghost c0 = self.chain@;
        let ghost d = data@;
        let mut item = self.chain.remove(i);
        assert(item == c0[i as int]);
        let r = item.filter(data, unit_trace);
        self.chain.insert(i, item);
        let ghost c1 = self.chain@;
        proof {
            assert(c1 =~= c0.update(i as int, item));
            assert(kinds(c1) =~= kinds(c0));
            assert(c1.skip(i + 1) =~= c0.skip(i + 1));
            assert(c1.take(i as int) =~= c0.take(i as int));
        }
        match r {
            Err(e) => {
                proof {
                    assert(c0.skip(i as int)[0] == c0[i as int]);
                    assert(c1.skip(i as int)[0] == item);
                }
                Err(e)
            },
            Ok(out) => {
                if out.len() == 0 {
                    proof {
                        assert(c0.skip(i as int)[0] == c0[i as int]);
                        assert(c1.skip(i as int)[0] == item);
                    }
                    return Ok(out);
                }
                let ghost o = out@;
                let res = self.filter_from(i + 1, out, unit_trace);
                proof {
                    let c2 = self.chain@;
                    assert(c2.take(i + 1)[i as int] == c1.take(i + 1)[i as int]);
                    assert(c2[i as int] == item);
                    assert(c2.take(i as int) =~= c1.take(i + 1).take(i as int));
                    assert(c0.skip(i as int)[0] == c0[i as int]);
                    assert(c2.skip(i as int)[0] == item);
                    assert(c0.skip(i as int).drop_first() =~= c0.skip(i + 1));
                    assert(c2.skip(i as int).drop_first() =~= c2.skip(i + 1));
                }
                res
            },
        }
    }
}

/// Through text filters alone, a chunk gives what `text_chain_out` says.
proof fn lemma_text_chain_result<S>(c0: Seq<FilterBodyActionItem<S>>, c1: Seq<FilterBodyActionItem<S>>, data: Seq<u8>)
    requires
        all_text(kinds(c0)),
        c1.len() == c0.len(),
    ensures
        chain_result(c0, c1, data) == Some(text_chain_out(c0, data)),
    decreases c0.len(),
{
    if c0.len() > 0 {
        assert(kinds(c0)[0] == FilterKind::Text);
        assert(kinds(c0.drop_first()) =~= kinds(c0).drop_first());
        lemma_text_chain_result(c0.drop_first(), c1.drop_first(), text_filter_out(
            c0[0]->Text_0.spec_action(),
            c0[0]->Text_0.spec_content(),
            c0[0]->Text_0.spec_executed(),
            data,
        ));
    }
}

/// Through text filters alone, the end of the body gives what `text_chain_end` says.
proof fn lemma_text_chain_end_result<S>(c0: Seq<FilterBodyActionItem<S>>, c1: Seq<FilterBodyActionItem<S>>, data: Seq<u8>)
    requires
        all_text(kinds(c0)),
        c1.len() == c0.len(),
    ensures
        chain_end_result(c0, c1, data) == Some(text_chain_end(c0, data)),
    decreases c0.len(),
{
    if c0.len() > 0 {
        assert(kinds(c0)[0] == FilterKind::Text);
        assert(kinds(c0.drop_first()) =~= kinds(c0).drop_first());
        let t = c0[0]->Text_0;
        let out = if data.len() == 0 {
            text_end_out(t.spec_content(), t.spec_executed())
        } else {
            text_filter_out(t.spec_action(), t.spec_content(), t.spec_executed(), data) + text_end_out(
                t.spec_content(),
                text_filter_executed(t.spec_action(), t.spec_executed()),
            )
        };
        lemma_text_chain_end_result(c0.drop_first(), c1.drop_first(), out);
    }
}

impl<S: BodyFilterStream> FilterBodyAction<S> {
    /// Ends the body: what each filter still holds, passed through the filters after it;
    /// nothing once a filter has failed, and the action stays in error.
    pub fn end(&mut self, unit_trace: &mut Option<UnitTrace>) -> (res: Vec<u8>)
        ensures
            final(self).spec_kinds() == old(self).spec_kinds(),
            old(self).spec_in_error() ==> final(self).spec_in_error() && res@.len() == 0,
            old(self).spec_kinds().len() == 0 ==> res@.len() == 0 && final(self).spec_in_error() == old(self).spec_in_error(),
            final(self).spec_in_error() ==> res@.len() == 0,
            !old(self).spec_in_error() ==> chain_end_handed(old(self).spec_chain(), final(self).spec_chain(), Seq::empty()),
            !old(self).spec_in_error() ==> match chain_end_result(
                old(self).spec_chain(),
                final(self).spec_chain(),
                Seq::empty(),
            ) {
                Some(o) => res@ == o && !final(self).spec_in_error(),
                None => res@.len() == 0 && final(self).spec_in_error(),
            },
            !old(self).spec_in_error() && all_text(old(self).spec_kinds()) ==> !final(self).spec_in_error()
                && res@ == text_chain_end(old(self).spec_chain(), Seq::empty()),
    {
        if self.in_error {
            return Vec::new();
        }
        let ghost c0 = self.chain@;
        assert(c0.skip(0) =~= c0);
        let r = self.end_from(0, Vec::new(), unit_trace);
        proof {
            assert(self.chain@.skip(0) =~= self.chain@);
            if all_text(kinds(c0)) {
                lemma_text_chain_end_result(c0, self.chain@, Seq::empty());
            }
        }
        match r {
            Ok(end) => end,
            Err(_) => {
                self.in_error = true;
                Vec::new()
            },
        }
    }

    /// Ends the body for the items from `i` on, where `data` is what the items before gave at
    /// their end.
    fn end_from(&mut self, i: usize, data: Vec<u8>, unit_trace: &mut Option<UnitTrace>) -> (res: Result<Vec<u8>, FilterBodyError>)
        requires
            i <= old(self).chain@.len(),
        ensures
            final(self).chain@.len() == old(self).chain@.len(),
            final(self).chain@.take(i as int) == old(self).chain@.take(i as int),
            kinds(final(self).chain@) == kinds(old(self).chain@),
            final(self).in_error == old(self).in_error,
            chain_end_handed(old(self).chain@.skip(i as int), final(self).chain@.skip(i as int), data@),
            match chain_end_result(old(self).chain@.skip(i as int), final(self).chain@.skip(i as int), data@) {
                Some(o) => res matches Ok(v) && v@ == o,
                None => res is Err,
            },
        decreases old(self).chain@.len() - i,
    {
        if i >= self.chain.len() {
            return Ok(data);
        }
        let ghost c0 = self.chain@;
        let ghost d = data@;
        let mut item = self.chain.remove(i);
        assert(item == c0[i as int]);
        let ghost a = item;
        let r = if data.len() == 0 {
            item.end(unit_trace)
        } else {
            match item.filter(data, unit_trace) {
                Ok(mut filtered) => {
                    let ghost m = item;
                    let e = item.end(unit_trace);
                    proof {
                        if a is Html {
                            let h0 = a->Html_0;
                            let hm = m->Html_0;
                            let h1 = item->Html_0;
                            assert(h1.spec_calls()[h0.spec_calls().len() as int] == hm.spec_calls().last());
                        }
                    }
                    match e {
                        Ok(mut end) => {
                            filtered.append(&mut end);
                            Ok(filtered)
                        },
                        Err(e) => Err(e),
                    }
                },
                Err(e) => {
                    proof {
                        if a is Html {
                            let h0 = a->Html_0;
                            let h1 = item->Html_0;
                            assert(h1.spec_calls()[h0.spec_calls().len() as int] == h1.spec_calls().last());
                        }
                    }
                    Err(e)
                },
            }
        };
        self.chain.insert(i, item);
        let ghost c1 = self.chain@;
        proof {
            assert(c1 =~= c0.update(i as int, item));
            assert(kinds(c1) =~= kinds(c0));
            assert(c1.skip(i + 1) =~= c0.skip(i + 1));
            assert(c1.take(i as int) =~= c0.take(i as int));
            assert(c0.skip(i as int)[0] == c0[i as int]);
            assert(c1.skip(i as int)[0] == item);
        }
        match r {
            Err(e) => Err(e),
            Ok(out) => {
                let res = self.end_from(i + 1, out, unit_trace);
                proof {
                    let c2 = self.chain@;
                    assert(c2.take(i + 1)[i as int] == c1.take(i + 1)[i as int]);
                    assert(c2[i as int] == item);
                    assert(c2.take(i as int) =~= c1.take(i + 1).take(i as int));
                    assert(c2.skip(i as int)[0] == item);
                    assert(c0.skip(i as int).drop_first() =~= c0.skip(i + 1));
                    assert(c2.skip(i as int).drop_first() =~= c2.skip(i + 1));
                }
                res
            },
        }
    }
}

/// A copy of the bytes.
fn clone_bytes(v: &Vec<u8>) -> (res: Vec<u8>)
    ensures
        res@ == v@,
{
    crate::text::copy_range(v, 0, v.len())
}

} // verus!
