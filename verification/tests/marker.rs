use redirectionio::marker::{Camelize, Dasherize, Lowercase, Marker, MarkerString, Replace, StaticOrDynamic, Transform, Uppercase};
use redirectionio::regex::LazyRegex;

fn marker(name: &str, regex: &str) -> Marker {
    Marker::new(name.to_string(), regex.to_string())
}

#[test]
fn marker_format_is_its_tag() {
    assert_eq!(marker("id", "[0-9]+").format(), "@id");
}

#[test]
fn meta_characters_around_markers_are_escaped() {
    let m = MarkerString::new("/a.b*c/@id", vec![marker("id", "[0-9]+")], false).unwrap();
    assert_eq!(m.regex, "/a\\.b\\*c/(?:[0-9]+)");
    assert_eq!(m.capture("/a.b*c/1"), vec![("id".to_string(), "1".to_string())]);
    assert!(m.capture("/aXbbbc/1").is_empty());
}

#[test]
fn marker_string_replaces_tags_longest_name_first() {
    let m = MarkerString::new("/a/@id/@idx", vec![marker("id", "[0-9]+"), marker("idx", "[a-z]+")], false).unwrap();
    assert_eq!(m.regex, "/a/(?:[0-9]+)/(?:[a-z]+)");
    assert_eq!(m.capture, "/a/(?P<id>[0-9]+)/(?P<idx>[a-z]+)");
    assert!(!m.ignore_case);
}

#[test]
fn marker_string_without_markers_in_it_is_none() {
    assert!(MarkerString::new("/a/b", vec![marker("id", "[0-9]+")], false).is_none());
}

#[test]
fn marker_string_captures_its_markers() {
    let mut m = MarkerString::new("/a/@id", vec![marker("id", "[0-9]+")], false).unwrap();
    assert_eq!(m.capture("/a/42"), vec![("id".to_string(), "42".to_string())]);
    assert!(m.capture("/a/x").is_empty());
    assert!(m.compile());
    assert_eq!(m.capture("/a/7"), vec![("id".to_string(), "7".to_string())]);
}

#[test]
fn static_or_dynamic_chooses_by_markers() {
    match StaticOrDynamic::new_with_markers("/A/B", Vec::new(), true) {
        StaticOrDynamic::Static(s) => assert_eq!(s, "/a/b"),
        StaticOrDynamic::Dynamic(_) => panic!("expected a static string"),
    }
    match StaticOrDynamic::new_with_markers("/A/B", vec![marker("x", ".")], false) {
        StaticOrDynamic::Static(s) => assert_eq!(s, "/A/B"),
        StaticOrDynamic::Dynamic(_) => panic!("expected a static string"),
    }
    let mut d = StaticOrDynamic::new_with_markers("/p/@x", vec![marker("x", "[a-z]+")], false);
    assert!(matches!(d, StaticOrDynamic::Dynamic(_)));
    assert_eq!(d.capture("/p/abc"), vec![("x".to_string(), "abc".to_string())]);
    assert!(d.compile());
    let mut s = StaticOrDynamic::Static("x".to_string());
    assert!(s.capture("x").is_empty());
    assert!(!s.compile());
}

#[test]
fn replace_puts_the_variables_in() {
    let vars = vec![("name".to_string(), "world".to_string()), ("n".to_string(), "2".to_string())];
    assert_eq!(StaticOrDynamic::replace("hello @name @n".to_string(), &vars), "hello world 2");
}

#[test]
fn transformers() {
    assert_eq!(Lowercase.transform("AbC".to_string()), "abc");
    assert_eq!(Uppercase.transform("AbC".to_string()), "ABC");
    assert_eq!(Camelize.transform("hello_world".to_string()), "helloWorld");
    assert_eq!(Dasherize.transform("HelloWorld".to_string()), "hello-world");
    assert_eq!(Replace::new("o".to_string(), "0".to_string()).transform("foo".to_string()), "f00");
    assert_eq!(Replace::new("".to_string(), "-".to_string()).transform("ab".to_string()), "-a-b-");
}

#[test]
fn lazy_regex_matching() {
    let empty = LazyRegex::new(String::new(), false);
    assert!(empty.is_match("anything"));
    let node = LazyRegex::new_node("/a".to_string(), false);
    assert!(node.is_match("/a/b"));
    assert!(!node.is_match("/b/a"));
    let leaf = LazyRegex::new_leaf("/a", true);
    assert!(leaf.is_match("/A"));
    assert!(!leaf.is_match("/a/b"));
    let compiled = leaf.compile();
    assert!(compiled.is_match("/a"));
    assert!(compiled.regex().is_some());
    let broken = LazyRegex::new("(".to_string(), false);
    assert!(!broken.is_match("("));
    assert!(broken.create_regex().is_none());
}

#[test]
fn regexes_are_equal_by_their_pattern_and_flag() {
    assert!(LazyRegex::new("a+".to_string(), false) == LazyRegex::new("a+".to_string(), false));
    assert!(LazyRegex::new("a+".to_string(), false) != LazyRegex::new("a+".to_string(), true));
    assert!(LazyRegex::new("a+".to_string(), false) == LazyRegex::new("a+".to_string(), false).compile());
    assert!(LazyRegex::new("a+".to_string(), false) != LazyRegex::new("b".to_string(), false));
}
