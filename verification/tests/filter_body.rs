use std::borrow::Cow;
use std::cell::{Cell, RefCell};
use std::io::{Read, Write};
use std::rc::Rc;

use flate2::Compression;
use flate2::write::{GzDecoder, GzEncoder, ZlibDecoder, ZlibEncoder};
use lol_html::html_content::{ContentType, Element, EndTag};
use lol_html::{ElementContentHandlers, HtmlRewriter, OutputSink, Selector, Settings};
use redirectionio::action::UnitTrace;
use redirectionio::api::{BodyFilter, HTMLBodyFilter, HTMLBodyTreeFilter, TextAction, TextBodyFilter};
use redirectionio::filter::FilterBodyAction;
use redirectionio::filter::{DecodeFilterBody, EncodeFilterBody, SupportedEncoding};
use redirectionio::filter::error::FilterBodyError;
use redirectionio::filter::filter_body::{BodyFilterStream, FilterBodyActionItem, HtmlFilterItem};
use redirectionio::filter::html_body_action::{CaptureRegistry, HtmlBodyVisitor};
use redirectionio::http::Header;

struct Sink(Rc<RefCell<Vec<u8>>>);

impl OutputSink for Sink {
    fn handle_chunk(&mut self, chunk: &[u8]) {
        self.0.borrow_mut().extend_from_slice(chunk);
    }
}

enum TestStream {
    Html(Rc<RefCell<Vec<u8>>>, Option<HtmlRewriter<'static, Sink>>),
    Failing,
}

fn handlers(visitor: HtmlBodyVisitor) -> Settings<'static, 'static> {
    let variables = Rc::new(CaptureRegistry::from_variables(Vec::new()));
    let settings = Settings::new();
    match visitor {
        HtmlBodyVisitor::Append(append) => {
            let (css, ignore) = append.css_selector();
            let selector: Selector = css.parse().unwrap();
            let append = Rc::new(append);
            match ignore {
                None => settings.append_element_content_handler((
                    Cow::Owned(selector),
                    ElementContentHandlers::default().element(move |e: &mut Element| {
                        e.append(append.content_for_element(&variables, &mut None).as_str(), ContentType::Html);
                        Ok(())
                    }),
                )),
                Some(ignore) => {
                    let ignore: Selector = ignore.parse().unwrap();
                    let exists = Rc::new(Cell::new(false));
                    let seen = exists.clone();
                    settings
                        .append_element_content_handler((
                            Cow::Owned(ignore),
                            ElementContentHandlers::default().element(move |_e: &mut Element| {
                                seen.set(true);
                                Ok(())
                            }),
                        ))
                        .append_element_content_handler((
                            Cow::Owned(selector),
                            ElementContentHandlers::default().element(move |e: &mut Element| {
                                let exists = exists.clone();
                                let append = append.clone();
                                if let Some(handlers) = e.end_tag_handlers() {
                                    handlers.push(Box::new(move |end: &mut EndTag| {
                                        if !exists.get() {
                                            end.before(append.content_for_end_tag(&mut None).as_str(), ContentType::Html);
                                        }
                                        Ok(())
                                    }));
                                }
                                Ok(())
                            }),
                        ))
                }
            }
        }
        HtmlBodyVisitor::Prepend(prepend) => {
            let selector: Selector = prepend.css_selector().parse().unwrap();
            settings.append_element_content_handler((
                Cow::Owned(selector),
                ElementContentHandlers::default().element(move |e: &mut Element| {
                    e.prepend(prepend.content_for_element(&variables, &mut None).as_str(), ContentType::Html);
                    Ok(())
                }),
            ))
        }
        HtmlBodyVisitor::Replace(replace) => {
            let selector: Selector = replace.css_selector().parse().unwrap();
            settings.append_element_content_handler((
                Cow::Owned(selector),
                ElementContentHandlers::default().element(move |e: &mut Element| {
                    e.replace(replace.content_for_element(&mut None).as_str(), ContentType::Html);
                    Ok(())
                }),
            ))
        }
        _ => settings,
    }
}

impl BodyFilterStream for TestStream {
    fn html(visitor: HtmlBodyVisitor) -> Self {
        let out = Rc::new(RefCell::new(Vec::new()));
        let rewriter = HtmlRewriter::new(handlers(visitor), Sink(out.clone()));
        TestStream::Html(out, Some(rewriter))
    }

    fn filter(&mut self, data: Vec<u8>, _unit_trace: &mut Option<UnitTrace>) -> Result<Vec<u8>, FilterBodyError> {
        match self {
            TestStream::Html(out, rewriter) => {
                rewriter.as_mut().unwrap().write(&data).unwrap();
                Ok(std::mem::take(&mut *out.borrow_mut()))
            }
            TestStream::Failing => Err(FilterBodyError::IoError(std::io::Error::other("failure"))),
        }
    }

    fn end(&mut self, _unit_trace: &mut Option<UnitTrace>) -> Result<Vec<u8>, FilterBodyError> {
        match self {
            TestStream::Html(out, rewriter) => {
                rewriter.take().unwrap().end().unwrap();
                Ok(std::mem::take(&mut *out.borrow_mut()))
            }
            TestStream::Failing => Err(FilterBodyError::IoError(std::io::Error::other("failure"))),
        }
    }
}

fn html_filter(action: &str, tree: &[&str], css_selector: &str, value: &str) -> BodyFilter {
    let filter = HTMLBodyTreeFilter {
        element_tree: tree.iter().map(|s| s.to_string()).collect(),
        css_selector: Some(css_selector.to_string()),
        value: value.to_string(),
        inner_value: None,
        id: Some("test".to_string()),
        target_hash: Some("target_hash".to_string()),
    };
    BodyFilter::HTML(match action {
        "append_child" => HTMLBodyFilter::AppendLegacy(filter),
        "prepend_child" => HTMLBodyFilter::PrependLegacy(filter),
        _ => HTMLBodyFilter::ReplaceLegacy(filter),
    })
}

fn header(name: &str, value: &str) -> Header {
    Header { name: name.to_string(), value: value.to_string() }
}

fn run(filter: &mut FilterBodyAction<TestStream>, input: Vec<u8>, chunk: usize) -> Vec<u8> {
    let mut filtered = Vec::new();
    for part in input.chunks(chunk) {
        filtered.extend(filter.filter(part.to_vec(), &mut None));
    }
    filtered.extend(filter.end(&mut None));
    filtered
}

fn compressed_round_trip(encoding: &str, input: &str, expected: &str, compress: impl Fn(&[u8]) -> Vec<u8>, decompress: impl Fn(&[u8]) -> Vec<u8>) {
    let headers = vec![header("Content-Encoding", encoding), header("Content-Type", "text/html;charset=")];
    let mut filter = FilterBodyAction::<TestStream>::new(
        vec![html_filter("prepend_child", &["html", "body"], "", "<p>This is as test</p>")],
        &headers,
    );
    let filtered = run(&mut filter, compress(input.as_bytes()), 10);
    assert_eq!(String::from_utf8(decompress(&filtered)).unwrap(), expected.to_string());
}

#[test]
pub fn test_filter_gzip() {
    compressed_round_trip(
        "gzip",
        "<html><head></head><body class=\"page\"><div>Yolo</div></body></html>",
        "<html><head></head><body class=\"page\"><p>This is as test</p><div>Yolo</div></body></html>",
        |b| {
            let mut e = GzEncoder::new(Vec::new(), Compression::default());
            e.write_all(b).unwrap();
            e.finish().unwrap()
        },
        |b| {
            let mut d = GzDecoder::new(Vec::new());
            d.write_all(b).unwrap();
            d.finish().unwrap()
        },
    );
}

#[test]
pub fn test_filter_deflate() {
    compressed_round_trip(
        "deflate",
        "<html><head></head><body class=\"page\"><div>Yolo</div></body></html>",
        "<html><head></head><body class=\"page\"><p>This is as test</p><div>Yolo</div></body></html>",
        |b| {
            let mut e = ZlibEncoder::new(Vec::new(), Compression::default());
            e.write_all(b).unwrap();
            e.finish().unwrap()
        },
        |b| {
            let mut d = ZlibDecoder::new(Vec::new());
            d.write_all(b).unwrap();
            d.finish().unwrap()
        },
    );
}

#[test]
pub fn test_filter_brotli() {
    compressed_round_trip(
        "br",
        "<html><head><h2>This is stupide data to ensure compression before</H2></head><body class=\"page\"><div>Yolo</div></body></html>",
        "<html><head><h2>This is stupide data to ensure compression before</H2></head><body class=\"page\"><p>This is as test</p><div>Yolo</div></body></html>",
        |b| {
            let mut out = Vec::new();
            brotli::CompressorReader::new(b, 4096, 11, 22).read_to_end(&mut out).unwrap();
            out
        },
        |b| {
            let mut out = Vec::new();
            brotli::Decompressor::new(b, 4096).read_to_end(&mut out).unwrap();
            out
        },
    );
}

#[test]
pub fn test_filter() {
    let mut filter = FilterBodyAction::<TestStream>::new(Vec::new(), &[]);
    let before_filter = "Test".to_string().into_bytes();
    let filtered = filter.filter(before_filter.clone(), &mut None);
    let end = filter.end(&mut None);
    assert_eq!(before_filter, filtered);
    assert!(end.is_empty());
}

#[test]
pub fn test_buffer_on_error() {
    let mut filter = FilterBodyAction::<TestStream>::new(Vec::new(), &[]);
    let mut filtered = filter.filter("<div>Text </".to_string().into_bytes(), &mut None);
    filtered.extend(filter.end(&mut None));
    assert_eq!("<div>Text </".to_string().into_bytes(), filtered);
}

#[test]
pub fn test_replace() {
    let mut filter = FilterBodyAction::<TestStream>::new(
        vec![
            html_filter("append_child", &["html", "head"], r#"meta[name="description"]"#, "<meta name=\"description\" content=\"New Description\" />"),
            html_filter("replace", &["html", "head", "meta"], r#"meta[name="description"]"#, "<meta name=\"description\" content=\"New Description\" />"),
        ],
        &[],
    );
    let filtered = run(&mut filter, "<html><head><meta name=\"description\"></head></html>".to_string().into_bytes(), 1000);
    assert_eq!(
        "<html><head><meta name=\"description\" content=\"New Description\" /></head></html>".to_string().into_bytes(),
        filtered
    );
}

#[test]
pub fn test_append() {
    let mut filter = FilterBodyAction::<TestStream>::new(
        vec![
            html_filter("append_child", &["html", "head"], r#"meta[name="description"]"#, "<meta name=\"description\" content=\"New Description\" />"),
            html_filter("replace", &["html", "head", "meta"], r#"meta[name="description"]"#, "<meta name=\"description\" content=\"New Description\" />"),
        ],
        &[],
    );
    let filtered = run(&mut filter, "<html><head><meta></head></html>".to_string().into_bytes(), 1000);
    assert_eq!(
        "<html><head><meta><meta name=\"description\" content=\"New Description\" /></head></html>".to_string().into_bytes(),
        filtered
    );
}

#[test]
pub fn test_prepend() {
    let mut filter = FilterBodyAction::<TestStream>::new(
        vec![html_filter("prepend_child", &["html", "body"], "", "<p>This is as test</p>")],
        &[],
    );
    let filtered = run(&mut filter, "<html><head></head><body class=\"page\"><div>Yolo</div></body></html>".to_string().into_bytes(), 1000);
    assert_eq!(
        "<html><head></head><body class=\"page\"><p>This is as test</p><div>Yolo</div></body></html>".to_string().into_bytes(),
        filtered
    );
}

#[test]
pub fn test_description_2() {
    let mut filter = FilterBodyAction::<TestStream>::new(
        vec![
            html_filter("append_child", &["html", "head"], r#"meta[property="og:description"]"#, r#"<meta property="og:description" content="New Description" />"#),
            html_filter("replace", &["html", "head", "meta"], r#"meta[property="og:description"]"#, r#"<meta property="og:description" content="New Description" />"#),
        ],
        &[],
    );
    let filtered = run(&mut filter, r#"<html><head><description>Old description</description><meta /><meta property="og:description" content="Old Description" /></head></html>"#.to_string().into_bytes(), 1000);
    assert_eq!(
        r#"<html><head><description>Old description</description><meta /><meta property="og:description" content="New Description" /></head></html>"#.to_string().into_bytes(),
        filtered
    );
}

#[test]
fn html_filters_are_left_out_of_other_content_types_and_unknown_encodings_empty_the_chain() {
    let filters = || vec![html_filter("prepend_child", &["html", "body"], "", "<p>x</p>")];
    assert!(FilterBodyAction::<TestStream>::new(filters(), &[header("Content-Type", "application/json")]).is_empty());
    assert!(!FilterBodyAction::<TestStream>::new(filters(), &[header("content-type", "TEXT/HTML")]).is_empty());
    assert!(FilterBodyAction::<TestStream>::new(filters(), &[header("Content-Encoding", "zstd")]).is_empty());
}

#[test]
fn text_filters_run_through_the_chain() {
    let text = |action: TextAction, content: &str| {
        BodyFilter::Text(TextBodyFilter { id: None, action, content: content.to_string() })
    };
    let mut filter = FilterBodyAction::<TestStream>::new(
        vec![text(TextAction::Prepend, "<"), text(TextAction::Append, ">")],
        &[header("Content-Type", "application/json")],
    );
    assert_eq!(run(&mut filter, b"body".to_vec(), 2), b"<body>".to_vec());
}

#[test]
fn a_failing_filter_lets_the_body_through_and_ends_with_nothing() {
    let mut item: FilterBodyActionItem<TestStream> = FilterBodyActionItem::Html(HtmlFilterItem::new(TestStream::Failing));
    assert!(item.filter(b"x".to_vec(), &mut None).is_err());
    let mut filter = FilterBodyAction::<TestStream>::new(
        vec![BodyFilter::Text(TextBodyFilter { id: None, action: TextAction::Append, content: "!".to_string() })],
        &[header("Content-Encoding", "gzip")],
    );
    let garbage = b"this is certainly not a gzip stream, nor anything close to one".to_vec();
    assert_eq!(filter.filter(garbage.clone(), &mut None), garbage);
    assert_eq!(filter.filter(b"more".to_vec(), &mut None), b"more".to_vec());
    assert!(filter.end(&mut None).is_empty());
}

#[test]
fn the_supported_encodings_are_named_once_each() {
    assert_eq!(SupportedEncoding::new_hash_set(), vec!["br".to_string(), "gzip".to_string(), "deflate".to_string()]);
    for name in SupportedEncoding::new_hash_set() {
        assert!(SupportedEncoding::from_name(name.as_str()).is_some());
    }
}

fn through_codec(encoding: SupportedEncoding, data: &[u8], decode: bool) -> Vec<u8> {
    let mut out = Vec::new();
    if decode {
        let mut d = DecodeFilterBody::new(encoding);
        for part in data.chunks(7) {
            out.extend(d.filter(part.to_vec()).unwrap());
        }
        out.extend(d.end().unwrap());
    } else {
        let mut e = EncodeFilterBody::new(encoding);
        for part in data.chunks(7) {
            out.extend(e.filter(part.to_vec()).unwrap());
        }
        out.extend(e.end().unwrap());
    }
    out
}

#[test]
fn each_codec_gives_back_what_its_counterpart_took() {
    let body = b"<html><body>Some text that is long enough to be worth compressing, compressing, compressing.</body></html>";
    for encoding in [SupportedEncoding::Gzip, SupportedEncoding::Deflate, SupportedEncoding::Brotli] {
        let compressed = through_codec(encoding, body, false);
        assert_ne!(compressed, body.to_vec());
        assert_eq!(through_codec(encoding, &compressed, true), body.to_vec());
    }
}

#[test]
fn the_gzip_encoder_writes_what_flate2_reads_back() {
    let compressed = through_codec(SupportedEncoding::Gzip, b"hello", false);
    let mut d = GzDecoder::new(Vec::new());
    d.write_all(&compressed).unwrap();
    assert_eq!(d.finish().unwrap(), b"hello".to_vec());
    let mut e = ZlibEncoder::new(Vec::new(), Compression::default());
    e.write_all(b"hello").unwrap();
    assert_eq!(through_codec(SupportedEncoding::Deflate, &e.finish().unwrap(), true), b"hello".to_vec());
}

#[test]
fn a_decoder_refuses_bytes_of_another_format() {
    let mut d = DecodeFilterBody::new(SupportedEncoding::Gzip);
    assert!(d.filter(b"this is certainly not a gzip stream, nor anything close to one".to_vec()).is_err());
}

#[test]
fn a_compressed_body_is_decoded_filtered_and_encoded_again() {
    let mut filter = FilterBodyAction::<TestStream>::new(
        vec![BodyFilter::Text(TextBodyFilter { id: None, action: TextAction::Append, content: "!".to_string() })],
        &[header("Content-Encoding", "gzip"), header("Content-Type", "text/plain")],
    );
    let mut e = GzEncoder::new(Vec::new(), Compression::default());
    e.write_all(b"hello world").unwrap();
    let compressed = e.finish().unwrap();
    let filtered = run(&mut filter, compressed, 5);
    let mut d = GzDecoder::new(Vec::new());
    d.write_all(&filtered).unwrap();
    assert_eq!(d.finish().unwrap(), b"hello world!".to_vec());
}
