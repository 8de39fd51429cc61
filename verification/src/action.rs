//! The trace that filters leave of what each unit of a rule did to a response.
use vstd::prelude::*;

verus! {

/// What a trace entry records.
#[derive(Debug, Clone, Copy, PartialEq, Eq, Structural)]
pub enum TraceKind {
    /// A unit computed a value (`first` is the unit, `second` the value).
    ValueComputedByUnit,
    /// A unit acted on a target, beside the others (`first` is the target, `second` the unit).
    UnitIdWithTarget,
    /// A unit acted on a target, in place of the others (`first` is the target, `second` the unit).
    OverrideUnitIdWithTarget,
    /// A unit acted (`first` is the unit).
    UnitId,
}

/// One entry of a trace.
#[derive(Debug)]
pub struct TraceEvent {
    pub kind: TraceKind,
    pub first: String,
    pub second: String,
}

/// An entry of a trace as plain values.
pub type TraceRecord = (TraceKind, Seq<char>, Seq<char>);

/// The entry as plain values.
pub open spec fn event_view(e: TraceEvent) -> TraceRecord {
    (e.kind, e.first@, e.second@)
}

/// The units that acted on a response, in the order in which they acted.
#[derive(Debug)]
pub struct UnitTrace {
    pub events: Vec<TraceEvent>,
}

impl View for UnitTrace {
    type V = Seq<TraceRecord>;

    open spec fn view(&self) -> Seq<TraceRecord> {
        self.events@.map_values(|e: TraceEvent| event_view(e))
    }
}

/// `after` is `before` with `records` added, where there is a trace at all.
pub open spec fn trace_extended(before: Option<UnitTrace>, after: Option<UnitTrace>, records: Seq<TraceRecord>) -> bool {
    match before {
        None => after is None,
        Some(t) => after matches Some(u) && u@ == t@ + records,
    }
}

impl UnitTrace {
    /// An empty trace.
    pub fn new() -> (res: UnitTrace)
        ensures
            res@ == Seq::<TraceRecord>::empty(),
    {
        let res = UnitTrace { events: Vec::new() };
        assert(res@ =~= Seq::<TraceRecord>::empty());
        res
    }

    fn push_event(&mut self, kind: TraceKind, first: &str, second: &str)
        ensures
            final(self)@ == old(self)@.push((kind, first@, second@)),
    {
        let ghost before = self@;
        self.events.push(TraceEvent { kind, first: String::from_str(first), second: String::from_str(second) });
        assert(self@ =~= before.push((kind, first@, second@)));
    }

    /// Records that unit `unit_id` computed `value`.
    pub fn add_value_computed_by_unit(&mut self, unit_id: &str, value: &str)
        ensures
            final(self)@ == old(self)@.push((TraceKind::ValueComputedByUnit, unit_id@, value@)),
    {
        self.push_event(TraceKind::ValueComputedByUnit, unit_id, value);
    }

    /// Records that unit `unit_id` acted on `target`, beside the units before it.
    pub fn add_unit_id_with_target(&mut self, target: &str, unit_id: &str)
        ensures
            final(self)@ == old(self)@.push((TraceKind::UnitIdWithTarget, target@, unit_id@)),
    {
        self.push_event(TraceKind::UnitIdWithTarget, target, unit_id);
    }

    /// Records that unit `unit_id` acted on `target`, in place of the units before it.
    pub fn override_unit_id_with_target(&mut self, target: &str, unit_id: &str)
        ensures
            final(self)@ == old(self)@.push((TraceKind::OverrideUnitIdWithTarget, target@, unit_id@)),
    {
        self.push_event(TraceKind::OverrideUnitIdWithTarget, target, unit_id);
    }

    /// Records that unit `unit_id` acted.
    pub fn add_unit_id(&mut self, unit_id: String)
        ensures
            final(self)@ == old(self)@.push((TraceKind::UnitId, unit_id@, Seq::<char>::empty())),
    {
        proof {
            reveal_strlit("");
        }
        assert(""@ =~= Seq::<char>::empty());
        self.push_event(TraceKind::UnitId, unit_id.as_str(), "");
    }
}

/// Records in `trace`, where there is one, what a unit did: the value it computed and, with a
/// target, that it acted on the target (in place of the others when `overrides`).
pub fn record_unit(
    trace: &mut Option<UnitTrace>,
    id: &Option<String>,
    target_hash: &Option<String>,
    value: &str,
    overrides: bool,
)
    ensures
        trace_extended(*old(trace), *final(trace), unit_records(*id, *target_hash, value@, overrides)),
{
    let taken = trace.take();
    match taken {
        None => {},
        Some(mut t) => {
            let ghost before = t@;
            match id {
                None => {},
                Some(id) => {
                    t.add_value_computed_by_unit(id.as_str(), value);
                    match target_hash {
                        None => {},
                        Some(target) => {
                            if overrides {
                                t.override_unit_id_with_target(target.as_str(), id.as_str());
                            } else {
                                t.add_unit_id_with_target(target.as_str(), id.as_str());
                            }
                        },
                    }
                },
            }
            assert(t@ =~= before + unit_records(*id, *target_hash, value@, overrides));
            *trace = Some(t);
        },
    }
}

/// Records in `trace`, where there is one, what a unit did to an element: the value it
/// computed, then that it acted on its target in place of the others, or, without a
/// target, that it acted.
pub fn record_element_unit(trace: &mut Option<UnitTrace>, id: &Option<String>, target_hash: &Option<String>, value: &str)
    ensures
        trace_extended(*old(trace), *final(trace), element_unit_records(*id, *target_hash, value@)),
{
    let taken = trace.take();
    match taken {
        None => {},
        Some(mut t) => {
            let ghost before = t@;
            match id {
                None => {},
                Some(id) => {
                    t.add_value_computed_by_unit(id.as_str(), value);
                    match target_hash {
                        Some(target) => t.override_unit_id_with_target(target.as_str(), id.as_str()),
                        None => t.add_unit_id(id.clone()),
                    }
                },
            }
            assert(t@ =~= before + element_unit_records(*id, *target_hash, value@));
            *trace = Some(t);
        },
    }
}

/// What `record_element_unit` adds to a trace.
pub open spec fn element_unit_records(id: Option<String>, target_hash: Option<String>, value: Seq<char>) -> Seq<TraceRecord> {
    match id {
        None => Seq::<TraceRecord>::empty(),
        Some(i) => seq![(TraceKind::ValueComputedByUnit, i@, value)].push(
            match target_hash {
                Some(t) => (TraceKind::OverrideUnitIdWithTarget, t@, i@),
                None => (TraceKind::UnitId, i@, Seq::<char>::empty()),
            },
        ),
    }
}

/// What `record_unit` adds to a trace.
pub open spec fn unit_records(id: Option<String>, target_hash: Option<String>, value: Seq<char>, overrides: bool) -> Seq<TraceRecord> {
    match id {
        None => Seq::<TraceRecord>::empty(),
        Some(i) => {
            let first = seq![(TraceKind::ValueComputedByUnit, i@, value)];
            match target_hash {
                None => first,
                Some(t) => first.push((
                    if overrides { TraceKind::OverrideUnitIdWithTarget } else { TraceKind::UnitIdWithTarget },
                    t@,
                    i@,
                )),
            }
        },
    }
}

/// Extending a trace twice extends it by both lists of records.
pub proof fn lemma_trace_extended_trans(
    a: Option<UnitTrace>,
    b: Option<UnitTrace>,
    c: Option<UnitTrace>,
    x: Seq<TraceRecord>,
    y: Seq<TraceRecord>,
)
    requires
        trace_extended(a, b, x),
        trace_extended(b, c, y),
    ensures
        trace_extended(a, c, x + y),
{
    if let Some(t) = a {
        assert(c->0@ =~= t@ + (x + y));
    }
}

/// A trace is its own extension by nothing.
pub proof fn lemma_trace_extended_refl(a: Option<UnitTrace>)
    ensures
        trace_extended(a, a, Seq::<TraceRecord>::empty()),
{
    if let Some(t) = a {
        assert(t@ =~= t@ + Seq::<TraceRecord>::empty());
    }
}

/// `r` repeated `n` times.
pub open spec fn repeat_records(r: Seq<TraceRecord>, n: nat) -> Seq<TraceRecord>
    decreases n,
{
    if n == 0 {
        Seq::<TraceRecord>::empty()
    } else {
        repeat_records(r, (n - 1) as nat) + r
    }
}

} // verus!
