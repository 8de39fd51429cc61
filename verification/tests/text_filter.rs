use redirectionio::action::{TraceKind, UnitTrace};
use redirectionio::filter::text_filter_body::{TextFilterAction, TextFilterBodyAction};

fn run(action: TextFilterAction, chunks: &[&str]) -> Vec<u8> {
    let mut filter = TextFilterBodyAction::new(Some("unit".to_string()), action, "TEXT".to_string());
    let mut trace = None;
    let mut out = Vec::new();
    for chunk in chunks {
        out.extend(filter.filter(chunk.as_bytes().to_vec(), &mut trace));
    }
    out.extend(filter.end());
    out
}

#[test]
fn append_puts_the_text_after_the_body() {
    assert_eq!(run(TextFilterAction::Append, &["ab", "cd"]), b"abcdTEXT".to_vec());
}

#[test]
fn prepend_puts_the_text_before_the_body() {
    assert_eq!(run(TextFilterAction::Prepend, &["ab", "cd"]), b"TEXTabcd".to_vec());
    assert_eq!(run(TextFilterAction::Prepend, &[]), b"TEXT".to_vec());
}

#[test]
fn replace_puts_the_text_in_place_of_the_body() {
    assert_eq!(run(TextFilterAction::Replace, &["ab", "cd"]), b"TEXT".to_vec());
    assert_eq!(run(TextFilterAction::Replace, &[]), b"TEXT".to_vec());
}

#[test]
fn each_chunk_records_the_unit_on_the_text_target() {
    let mut filter = TextFilterBodyAction::new(Some("u".to_string()), TextFilterAction::Replace, "x".to_string());
    let mut trace = Some(UnitTrace::new());
    filter.filter(b"a".to_vec(), &mut trace);
    filter.filter(b"b".to_vec(), &mut trace);
    let events = &trace.as_ref().unwrap().events;
    assert_eq!(events.len(), 2);
    assert_eq!(events[0].kind, TraceKind::OverrideUnitIdWithTarget);
    assert_eq!(events[0].first, "text");
    assert_eq!(events[0].second, "u");
}
