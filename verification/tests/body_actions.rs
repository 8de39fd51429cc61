use redirectionio::filter::body_action::{
    BodyAction, BodyActionItem, BodyAppend, BodyPrepend, BodyReplace, append_child, create_body_action, evaluate,
    prepend_child, void_element,
};
use redirectionio::router::rule::BodyFilter;

fn tree(names: &[&str]) -> Vec<String> {
    names.iter().map(|s| s.to_string()).collect()
}

#[test]
fn append_child_goes_before_the_closing_tag_of_the_first_element() {
    assert_eq!(append_child("<div><p>a</p></div>".to_string(), "<b/>".to_string()), "<div><p>a</p><b/></div>");
    assert_eq!(append_child("<div><br>x</div>".to_string(), "!".to_string()), "<div><br>x!</div>");
    assert_eq!(append_child("<div>".to_string(), "!".to_string()), "<div>");
}

#[test]
fn prepend_child_goes_after_the_first_start_tag() {
    assert_eq!(prepend_child("<body><div/></body>".to_string(), "<p>".to_string()), "<body><p><div/></body>");
    assert_eq!(prepend_child("text only".to_string(), "<p>".to_string()), "text only");
}

#[test]
fn an_empty_element_gets_the_child_between_its_tags() {
    assert_eq!(append_child("<div id=a></DIV >".to_string(), "x".to_string()), "<div id=a>x</DIV >");
    assert_eq!(prepend_child("<main data-x=1>y</main>".to_string(), "x".to_string()), "<main data-x=1>xy</main>");
    assert_eq!(append_child("<br></br>".to_string(), "x".to_string()), "<br></br>");
}

#[test]
fn void_elements() {
    assert!(void_element("br"));
    assert!(void_element("meta"));
    assert!(!void_element("div"));
}

#[test]
fn evaluate_reads_xml_and_is_false_on_errors() {
    assert!(evaluate("<a><b/></a>", "count(//b) = 1"));
    assert!(!evaluate("<a><b/></a>", "count(//b) = 2"));
    assert!(!evaluate("<a>", "true()"));
    assert!(!evaluate("<a/>", "(("));
}

#[test]
fn append_follows_the_path_down_and_up() {
    let mut action = BodyAppend::new(tree(&["html", "body"]), None, "<p>x</p>".to_string());
    assert_eq!(action.first(), "html");
    let (next_enter, next_leave, buffer, data) = action.enter("<html>".to_string());
    assert_eq!(next_enter, Some("body".to_string()));
    assert_eq!(next_leave, Some("html".to_string()));
    assert!(!buffer);
    assert_eq!(data, "<html>");
    let (next_enter, next_leave, buffer, _) = action.enter("<body>".to_string());
    assert_eq!(next_enter, None);
    assert_eq!(next_leave, Some("body".to_string()));
    assert!(!buffer);
    let (next_enter, next_leave, data) = action.leave("</body>".to_string());
    assert_eq!(next_enter, Some("body".to_string()));
    assert_eq!(next_leave, Some("html".to_string()));
    assert_eq!(data, "<p>x</p></body>");
}

#[test]
fn replace_buffers_the_element_and_puts_the_content_in_its_place() {
    let mut action = BodyReplace::new(tree(&["title"]), None, "<title>New</title>".to_string());
    let (_, _, buffer, _) = action.enter("<title>".to_string());
    assert!(buffer);
    let (next_enter, next_leave, data) = action.leave("<title>Old</title>".to_string());
    assert_eq!(next_enter, Some("title".to_string()));
    assert_eq!(next_leave, None);
    assert_eq!(data, "<title>New</title>");
}

#[test]
fn prepend_without_matcher_adds_the_content_on_entering() {
    let mut action = BodyPrepend::new(tree(&["body"]), None, "<p>x</p>".to_string());
    let (_, _, buffer, data) = action.enter("<body>".to_string());
    assert!(!buffer);
    assert_eq!(data, "<body><p>x</p>");
}

#[test]
fn create_body_action_needs_a_path_and_a_known_action() {
    let filter = |action: &str, path: &[&str]| BodyFilter {
        action: action.to_string(),
        element_tree: tree(path),
        x_path_matcher: None,
        value: "v".to_string(),
    };
    assert!(create_body_action(&filter("append_child", &[])).is_none());
    assert!(matches!(create_body_action(&filter("append_child", &["a"])), Some(BodyActionItem::Append(_))));
    assert!(matches!(create_body_action(&filter("prepend_child", &["a"])), Some(BodyActionItem::Prepend(_))));
    assert!(matches!(create_body_action(&filter("replace", &["a"])), Some(BodyActionItem::Replace(_))));
    assert!(create_body_action(&filter("remove", &["a"])).is_none());
}
