use redirectionio::action::UnitTrace;
use redirectionio::filter::html_to_markdown::{HtmlToMarkdownFilter, MarkdownSource, markdown_output};

#[test]
fn the_body_is_held_to_its_end_and_the_unit_recorded_once() {
    let mut filter = HtmlToMarkdownFilter::new(Some("unit".to_string()));
    assert!(filter.filter(b"<h1>Ti".to_vec()).is_empty());
    assert!(filter.filter(b"tle</h1>".to_vec()).is_empty());
    let mut trace = Some(UnitTrace::new());
    match filter.end(&mut trace) {
        MarkdownSource::Html(html) => assert_eq!(html, "<h1>Title</h1>"),
        MarkdownSource::Bytes(_) => panic!("the body is UTF-8"),
    }
    assert_eq!(trace.unwrap().events.len(), 1);
}

#[test]
fn a_body_that_is_not_utf8_goes_out_as_it_came() {
    let mut filter = HtmlToMarkdownFilter::new(None);
    filter.filter(vec![0xff, 0x41]);
    let mut trace = None;
    match filter.end(&mut trace) {
        MarkdownSource::Bytes(bytes) => assert_eq!(bytes, vec![0xff, 0x41]),
        MarkdownSource::Html(_) => panic!("the body is not UTF-8"),
    }
}

#[test]
fn the_conversion_gives_the_markdown_or_keeps_the_html() {
    assert_eq!(markdown_output("<p>x</p>".to_string(), Ok(Some("x".to_string()))), b"x".to_vec());
    assert_eq!(markdown_output("<p>x</p>".to_string(), Ok(None)), Vec::<u8>::new());
    assert_eq!(markdown_output("<p>x</p>".to_string(), Err(())), b"<p>x</p>".to_vec());
}
