use redirectionio::action::UnitTrace;
use redirectionio::api::{
    HTMLBodyAppendFilter, HTMLBodyFilter, HTMLBodyRemoveFilter, HTMLBodySelectorFilter, HTMLBodyTreeFilter, VariableValue,
};
use redirectionio::filter::html_body_action::{
    BodyAfter, CaptureRegistry, HtmlBodyVisitor, build_append_css_selector, build_css_selector,
};

fn tree(names: &[&str]) -> Vec<String> {
    names.iter().map(|s| s.to_string()).collect()
}

#[test]
fn css_selector_of_a_path() {
    assert_eq!(build_css_selector(&tree(&["html", "body"]), &None), "html > body");
    assert_eq!(build_css_selector(&tree(&["html", "head"]), &Some("meta[name=x]".to_string())), "html > head > meta[name=x]");
    assert_eq!(build_css_selector(&tree(&["html", "head", "meta"]), &Some("meta[name=x]".to_string())), "html > head > meta[name=x]");
    assert_eq!(build_css_selector(&[], &Some("div".to_string())), "div");
    assert_eq!(build_css_selector(&[], &None), "");
    assert_eq!(build_css_selector(&tree(&["html"]), &Some(String::new())), "html");
}

#[test]
fn append_css_selectors_of_a_path() {
    assert_eq!(build_append_css_selector(&tree(&["html", "head"]), &None), ("html > head".to_string(), None));
    assert_eq!(
        build_append_css_selector(&tree(&["html", "head"]), &Some("meta".to_string())),
        ("html > head".to_string(), Some("html > head > meta".to_string()))
    );
    assert_eq!(
        build_append_css_selector(&tree(&["html", "head", "meta"]), &Some("meta[a]".to_string())),
        ("html > head".to_string(), Some("html > head > meta[a]".to_string()))
    );
}

#[test]
fn visitor_of_each_filter() {
    let legacy = |path: &[&str]| HTMLBodyTreeFilter {
        element_tree: tree(path),
        css_selector: None,
        value: "v".to_string(),
        inner_value: None,
        id: None,
        target_hash: None,
    };
    let selector = || HTMLBodySelectorFilter {
        css_selector: "div".to_string(),
        value: "v".to_string(),
        inner_value: Some("i".to_string()),
        id: None,
        target_hash: None,
    };
    assert!(HtmlBodyVisitor::new(HTMLBodyFilter::PrependLegacy(legacy(&[]))).is_none());
    assert!(matches!(HtmlBodyVisitor::new(HTMLBodyFilter::PrependLegacy(legacy(&["body"]))), Some(HtmlBodyVisitor::Prepend(_))));
    assert!(HtmlBodyVisitor::new(HTMLBodyFilter::ReplaceLegacy(legacy(&[]))).is_none());
    assert!(matches!(HtmlBodyVisitor::new(HTMLBodyFilter::AppendLegacy(legacy(&[]))), Some(HtmlBodyVisitor::Append(_))));
    assert!(matches!(HtmlBodyVisitor::new(HTMLBodyFilter::Prepend(selector())), Some(HtmlBodyVisitor::Prepend(_))));
    assert!(matches!(HtmlBodyVisitor::new(HTMLBodyFilter::Replace(selector())), Some(HtmlBodyVisitor::Replace(_))));
    assert!(matches!(HtmlBodyVisitor::new(HTMLBodyFilter::After(selector())), Some(HtmlBodyVisitor::After(_))));
    assert!(matches!(HtmlBodyVisitor::new(HTMLBodyFilter::Before(selector())), Some(HtmlBodyVisitor::Before(_))));
    let append = HTMLBodyAppendFilter {
        css_selector: "head".to_string(),
        ignore_css_selector: Some("head > title".to_string()),
        value: "v".to_string(),
        inner_value: None,
        id: None,
        target_hash: None,
    };
    match HtmlBodyVisitor::new(HTMLBodyFilter::Append(append)) {
        Some(HtmlBodyVisitor::Append(a)) => assert_eq!(a.css_selector(), ("head".to_string(), Some("head > title".to_string()))),
        _ => panic!("expected an append"),
    }
    let remove = HTMLBodyRemoveFilter { css_selector: "script".to_string(), id: None, target_hash: None };
    match HtmlBodyVisitor::new(HTMLBodyFilter::Remove(remove)) {
        Some(HtmlBodyVisitor::Remove(r)) => assert_eq!(r.css_selector(), "script"),
        _ => panic!("expected a remove"),
    }
}

#[test]
fn legacy_replace_selects_the_path_and_its_selector() {
    let filter = HTMLBodyTreeFilter {
        element_tree: tree(&["html", "head", "meta"]),
        css_selector: Some(r#"meta[name="description"]"#.to_string()),
        value: "v".to_string(),
        inner_value: None,
        id: None,
        target_hash: None,
    };
    match HtmlBodyVisitor::new(HTMLBodyFilter::ReplaceLegacy(filter)) {
        Some(HtmlBodyVisitor::Replace(r)) => assert_eq!(r.css_selector(), r#"html > head > meta[name="description"]"#),
        _ => panic!("expected a replace"),
    }
}

#[test]
fn capture_registry_replaces_known_values_longest_first() {
    let mut registry = CaptureRegistry::from_variables(vec![
        ("a".to_string(), VariableValue::Static("1".to_string())),
        ("ab".to_string(), VariableValue::Static("2".to_string())),
        ("title".to_string(), VariableValue::HtmlFilter { selector: "h1".to_string() }),
        ("a".to_string(), VariableValue::Static("3".to_string())),
    ]);
    assert_eq!(registry.replace("@ab @a @title".to_string()), "2 3 @title");
    assert!(registry.need_body_capture());
    assert_eq!(registry.selectors(), vec![("h1".to_string(), "title".to_string())]);
    registry.set_variable("title".to_string(), "Hello".to_string());
    assert!(!registry.need_body_capture());
    assert_eq!(registry.replace("@title".to_string()), "Hello");
    registry.set_variable("missing".to_string(), "x".to_string());
    assert_eq!(registry.replace("@missing".to_string()), "@missing");
}

#[test]
fn captured_text_is_gathered_until_the_end_of_the_text_node() {
    let mut registry =
        CaptureRegistry::from_variables(vec![("title".to_string(), VariableValue::HtmlFilter { selector: "h1".to_string() })]);
    let name = "title".to_string();
    let mut pending = String::new();
    registry.capture_text(&name, &mut pending, "Hel", false);
    assert_eq!(pending, "Hel");
    assert_eq!(registry.replace("@title".to_string()), "@title");
    registry.capture_text(&name, &mut pending, "lo", true);
    assert_eq!(pending, "");
    assert_eq!(registry.replace("@title".to_string()), "Hello");
    registry.capture_text(&name, &mut pending, "Bye", true);
    assert_eq!(registry.replace("@title".to_string()), "Bye");
}

#[test]
fn after_content_and_trace() {
    let registry = CaptureRegistry::from_variables(vec![("who".to_string(), VariableValue::Static("you".to_string()))]);
    let after = BodyAfter::new(
        "div".to_string(),
        "<p>@who</p>".to_string(),
        "@who".to_string(),
        Some("u".to_string()),
        None,
    );
    let mut trace = Some(UnitTrace::new());
    assert_eq!(after.content_for_element(&registry, &mut trace), "<p>you</p>");
    let events = &trace.as_ref().unwrap().events;
    assert_eq!(events.len(), 2);
    assert_eq!(events[0].second, "you");
    assert_eq!(events[1].first, "u");
}

#[test]
fn an_append_goes_before_the_end_tag_only_where_its_checker_found_nothing() {
    let append = HTMLBodyAppendFilter {
        css_selector: "head".to_string(),
        ignore_css_selector: Some("head > title".to_string()),
        value: "<title>t</title>".to_string(),
        inner_value: None,
        id: Some("unit".to_string()),
        target_hash: None,
    };
    let Some(HtmlBodyVisitor::Append(a)) = HtmlBodyVisitor::new(HTMLBodyFilter::Append(append)) else {
        panic!("expected an append")
    };
    let mut trace = Some(UnitTrace::new());
    assert_eq!(a.content_at_end_tag(true, &mut trace), None);
    assert!(trace.as_ref().unwrap().events.is_empty());
    assert_eq!(a.content_at_end_tag(false, &mut trace), Some("<title>t</title>".to_string()));
    assert!(!trace.unwrap().events.is_empty());
}
