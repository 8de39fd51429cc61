use redirectionio::action::{TraceKind, UnitTrace};
use redirectionio::api::HeaderFilter;
use redirectionio::filter::FilterHeaderAction;
use redirectionio::filter::header_action::{
    HeaderAction, HeaderActionItem, HeaderAddAction, HeaderDefaultAction, HeaderOverrideAction, HeaderRemoveAction,
    HeaderReplaceAction, create_header_action,
};
use redirectionio::http::Header;

fn header(name: &str, value: &str) -> Header {
    Header { name: name.to_string(), value: value.to_string() }
}

fn pairs(headers: &[Header]) -> Vec<(String, String)> {
    headers.iter().map(|h| (h.name.clone(), h.value.clone())).collect()
}

fn filter(action: &str, name: &str, value: &str) -> HeaderFilter {
    HeaderFilter {
        action: action.to_string(),
        header: name.to_string(),
        value: value.to_string(),
        id: Some("unit".to_string()),
        target_hash: Some("target".to_string()),
    }
}

fn records(trace: &Option<UnitTrace>) -> Vec<(TraceKind, String, String)> {
    trace.as_ref().unwrap().events.iter().map(|e| (e.kind, e.first.clone(), e.second.clone())).collect()
}

#[test]
fn add_appends_even_when_the_header_is_there() {
    let action = HeaderAddAction {
        name: "X-Test".to_string(),
        value: "b".to_string(),
        id: Some("u1".to_string()),
        target_hash: Some("t1".to_string()),
    };
    let mut trace = Some(UnitTrace::new());
    let out = action.filter(vec![header("x-test", "a")], &mut trace);
    assert_eq!(pairs(&out), vec![("x-test".to_string(), "a".to_string()), ("X-Test".to_string(), "b".to_string())]);
    assert_eq!(
        records(&trace),
        vec![
            (TraceKind::ValueComputedByUnit, "u1".to_string(), "b".to_string()),
            (TraceKind::UnitIdWithTarget, "t1".to_string(), "u1".to_string()),
        ]
    );
}

#[test]
fn default_only_adds_a_missing_header() {
    let action = HeaderDefaultAction { name: "Cache-Control".to_string(), value: "no-cache".to_string(), id: None, target_hash: None };
    let mut trace = None;
    let out = action.filter(vec![header("cache-control", "max-age=3")], &mut trace);
    assert_eq!(pairs(&out), vec![("cache-control".to_string(), "max-age=3".to_string())]);
    let out = action.filter(vec![header("Other", "1")], &mut trace);
    assert_eq!(
        pairs(&out),
        vec![("Other".to_string(), "1".to_string()), ("Cache-Control".to_string(), "no-cache".to_string())]
    );
    assert!(trace.is_none());
}

#[test]
fn override_sets_each_header_of_the_name_or_adds_one() {
    let action = HeaderOverrideAction { name: "X-A".to_string(), value: "new".to_string(), id: None, target_hash: None };
    let mut trace = Some(UnitTrace::new());
    let out = action.filter(vec![header("x-a", "1"), header("B", "2"), header("X-a", "3")], &mut trace);
    assert_eq!(
        pairs(&out),
        vec![
            ("X-A".to_string(), "new".to_string()),
            ("B".to_string(), "2".to_string()),
            ("X-A".to_string(), "new".to_string()),
        ]
    );
    let out = action.filter(vec![header("B", "2")], &mut trace);
    assert_eq!(pairs(&out), vec![("B".to_string(), "2".to_string()), ("X-A".to_string(), "new".to_string())]);
    assert!(records(&trace).is_empty());
}

#[test]
fn remove_drops_every_header_of_the_name() {
    let action = HeaderRemoveAction { name: "Set-Cookie".to_string(), id: Some("u".to_string()), target_hash: Some("t".to_string()) };
    let mut trace = Some(UnitTrace::new());
    let out = action.filter(vec![header("set-cookie", "a"), header("Keep", "k"), header("SET-COOKIE", "b")], &mut trace);
    assert_eq!(pairs(&out), vec![("Keep".to_string(), "k".to_string())]);
    assert_eq!(
        records(&trace),
        vec![
            (TraceKind::ValueComputedByUnit, "u".to_string(), "".to_string()),
            (TraceKind::OverrideUnitIdWithTarget, "t".to_string(), "u".to_string()),
        ]
    );
}

#[test]
fn replace_changes_values_in_place_and_records_each_replacement() {
    let action = HeaderReplaceAction { name: "X".to_string(), value: "v".to_string(), id: Some("u".to_string()), target_hash: None };
    let mut trace = Some(UnitTrace::new());
    let out = action.filter(vec![header("x", "1"), header("y", "2"), header("X", "3")], &mut trace);
    assert_eq!(
        pairs(&out),
        vec![("X".to_string(), "v".to_string()), ("y".to_string(), "2".to_string()), ("X".to_string(), "v".to_string())]
    );
    assert_eq!(
        records(&trace),
        vec![
            (TraceKind::ValueComputedByUnit, "u".to_string(), "v".to_string()),
            (TraceKind::ValueComputedByUnit, "u".to_string(), "v".to_string()),
        ]
    );
    let out = action.filter(vec![header("y", "2")], &mut trace);
    assert_eq!(pairs(&out), vec![("y".to_string(), "2".to_string())]);
}

#[test]
fn create_header_action_knows_five_actions() {
    assert!(matches!(create_header_action(&filter("add", "a", "b")), Some(HeaderActionItem::Add(_))));
    assert!(matches!(create_header_action(&filter("remove", "a", "b")), Some(HeaderActionItem::Remove(_))));
    assert!(matches!(create_header_action(&filter("replace", "a", "b")), Some(HeaderActionItem::Replace(_))));
    assert!(matches!(create_header_action(&filter("override", "a", "b")), Some(HeaderActionItem::Override(_))));
    assert!(matches!(create_header_action(&filter("default", "a", "b")), Some(HeaderActionItem::Default(_))));
    assert!(create_header_action(&filter("Add", "a", "b")).is_none());
    assert!(create_header_action(&filter("unknown", "a", "b")).is_none());
}

#[test]
fn filter_header_action_applies_the_actions_in_order() {
    assert!(FilterHeaderAction::new(Vec::new()).is_none());
    assert!(FilterHeaderAction::new(vec![filter("nothing", "a", "b")]).is_none());
    let chain = FilterHeaderAction::new(vec![
        filter("add", "X-One", "1"),
        filter("nothing", "a", "b"),
        filter("replace", "x-one", "2"),
        filter("remove", "X-Gone", ""),
    ])
    .unwrap();
    let mut trace = Some(UnitTrace::new());
    let out = chain.filter(vec![header("X-Gone", "g"), header("Keep", "k")], &mut trace);
    assert_eq!(pairs(&out), vec![("Keep".to_string(), "k".to_string()), ("x-one".to_string(), "2".to_string())]);
    assert_eq!(records(&trace).len(), 2 + 2 + 2);
}
