use redirectionio::html::{ErrorKind, TokenType, Tokenizer};

fn check_tokens(html: &str, golden: &str) {
    let mut tokenizer = Tokenizer::new(html.as_bytes().to_vec());
    if !golden.is_empty() {
        for split in golden.split('$') {
            let token_type = tokenizer.next();
            assert_ne!(token_type, TokenType::ErrorToken);
            let token = tokenizer.token().unwrap();
            assert_eq!(token.to_string(), split);
        }
    }
    tokenizer.next();
    assert!(tokenizer.err().is_some());
}

#[test]
fn empty() {
    check_tokens("", "");
}

#[test]
fn text() {
    check_tokens("foo  bar", "foo  bar");
}

#[test]
fn entity() {
    check_tokens("one &lt; two", "one &lt; two");
}

#[test]
fn tags() {
    check_tokens("<a>b<c/>d</e>", "<a>$b$<c/>$d$</e>");
}

#[test]
fn not_a_tag_0() {
    check_tokens("<", "<");
}

#[test]
fn not_a_tag_1() {
    check_tokens("</", "</");
}

#[test]
fn not_a_tag_2() {
    check_tokens("</>", "<!---->");
}

#[test]
fn not_a_tag_3() {
    check_tokens("a</>b", "a$<!---->$b");
}

#[test]
fn not_a_tag_4() {
    check_tokens("</ >", "<!-- -->");
}

#[test]
fn not_a_tag_5() {
    check_tokens("</.", "<!--.-->");
}

#[test]
fn not_a_tag_6() {
    check_tokens("</.>", "<!--.-->");
}

#[test]
fn not_a_tag_7() {
    check_tokens("a < b", "a < b");
}

#[test]
fn not_a_tag_8() {
    check_tokens("<.>", "<.>");
}

#[test]
fn not_a_tag_9() {
    check_tokens("a<<<b>>>c", "a<<$<b>$>>c");
}

#[test]
fn not_a_tag_10() {
    check_tokens("i x<0 and y < 0 then x*y>0", "i x<0 and y < 0 then x*y>0");
}

#[test]
fn not_a_tag_11() {
    check_tokens("<<p>", "<$<p>");
}

#[test]
fn tag_name_eof_0() {
    check_tokens("<a", "");
}

#[test]
fn tag_name_eof_1() {
    check_tokens("<a ", "");
}

#[test]
fn tag_name_eof_2() {
    check_tokens("a<b", "a");
}

#[test]
fn tag_name_eof_3() {
    check_tokens("<a><b ", "<a>");
}

#[test]
fn tag_name_eof_4() {
    check_tokens("<a x ", "");
}

#[test]
fn malformed_tag_0() {
    check_tokens("<p</p>", "<p< p=\"\">");
}

#[test]
fn malformed_tag_1() {
    check_tokens("<p </p>", "<p <=\"\" p=\"\">");
}

#[test]
fn malformed_tag_2() {
    check_tokens("<p id", "");
}

#[test]
fn malformed_tag_3() {
    check_tokens("<p id=", "");
}

#[test]
fn malformed_tag_4() {
    check_tokens("<p id=>", "<p id=\"\">");
}

#[test]
fn malformed_tag_5() {
    check_tokens("<p id=0", "");
}

#[test]
fn malformed_tag_6() {
    check_tokens("<p id=0</p>", "<p id=\"0</p\">");
}

#[test]
fn malformed_tag_7() {
    check_tokens("<p id=\"0</p>", "");
}

#[test]
fn malformed_tag_8() {
    check_tokens("<p id=\"0\"</p>", "<p id=\"0\" <=\"\" p=\"\">");
}

#[test]
fn malformed_tag_9() {
    check_tokens("<p></p id", "<p>");
}

#[test]
fn basic_raw_text() {
    check_tokens("<script><a></b></script>", "<script>$<a></b>$</script>");
}

#[test]
fn unfinished_script_end_tag() {
    check_tokens("<SCRIPT>a</SCR", "<script>$a</SCR");
}

#[test]
fn broken_script_end_tag() {
    check_tokens("<SCRIPT>a</SCR ipt>", "<script>$a</SCR ipt>");
}

#[test]
fn eof_in_script_end_tag() {
    check_tokens("<SCRIPT>a</SCRipt", "<script>$a</SCRipt");
}

#[test]
fn scriptx_end_tag() {
    check_tokens("<SCRIPT>a</SCRiptx", "<script>$a</SCRiptx");
}

#[test]
fn space_completes_script_end_tag() {
    check_tokens("<SCRIPT>a</SCRipt ", "<script>$a");
}

#[test]
fn sup_completes_script_end_tag() {
    check_tokens("<SCRIPT>a</SCRipt>", "<script>$a$</script>");
}

#[test]
fn nested_script_tag() {
    check_tokens("<SCRIPT>a</SCRipt<script>", "<script>$a</SCRipt<script>");
}

#[test]
fn script_end_tag_after_unfinihsed() {
    check_tokens("<SCRIPT>a</SCRipt</script>", "<script>$a</SCRipt$</script>");
}

#[test]
fn script_style_mistmatched_tag() {
    check_tokens("<script>a</style>", "<script>$a</style>");
}

#[test]
fn style_element_with_entity() {
    check_tokens("<style>&apos;", "<style>$&apos;");
}

#[test]
fn textarea_with_tag() {
    check_tokens("<textarea><div></textarea>", "<textarea>$<div>$</textarea>");
}

#[test]
fn title_with_tag_and_entity() {
    check_tokens("<title><b>K&amp;R C</b></title>", "<title>$<b>K&amp;R C</b>$</title>");
}

#[test]
fn proper_doctype() {
    check_tokens("<!DOCTYPE html>", "<!DOCTYPE html>");
}

#[test]
fn doctype_with_no_space() {
    check_tokens("<!doctypehtml>", "<!DOCTYPE html>");
}

#[test]
fn doctype_with_two_space() {
    check_tokens("<!doctype  html>", "<!DOCTYPE html>");
}

#[test]
fn doctype_looks_like() {
    check_tokens("<!DOCUMENT html>", "<!--DOCUMENT html-->");
}

#[test]
fn doctype_at_eof() {
    check_tokens("<!DOCTYPE", "<!DOCTYPE >");
}

#[test]
fn xml_processing_instruction() {
    check_tokens("<?xml?>", "<!--?xml?-->");
}

#[test]
fn comment_0() {
    check_tokens("abc<b><!-- skipme --></b>def", "abc$<b>$<!-- skipme -->$</b>$def");
}

#[test]
fn comment_1() {
    check_tokens("a<!-->z", "a$<!---->$z");
}

#[test]
fn comment_2() {
    check_tokens("a<!--->z", "a$<!---->$z");
}

#[test]
fn comment_3() {
    check_tokens("a<!--x>-->z", "a$<!--x>-->$z");
}

#[test]
fn comment_4() {
    check_tokens("a<!--x->-->z", "a$<!--x->-->$z");
}

#[test]
fn comment_5() {
    check_tokens("a<!>z", "a$<!---->$z");
}

#[test]
fn comment_6() {
    check_tokens("a<!->z", "a$<!----->$z");
}

#[test]
fn comment_7() {
    check_tokens("a<!---<>z", "a$<!---<>z-->");
}

#[test]
fn comment_8() {
    check_tokens("a<!--z", "a$<!--z-->");
}

#[test]
fn comment_9() {
    check_tokens("a<!--z-", "a$<!--z-->");
}

#[test]
fn comment_10() {
    check_tokens("a<!--z--", "a$<!--z-->");
}

#[test]
fn comment_11() {
    check_tokens("a<!--z---", "a$<!--z--->");
}

#[test]
fn comment_12() {
    check_tokens("a<!--z----", "a$<!--z---->");
}

#[test]
fn comment_13() {
    check_tokens("a<!--x--!>z", "a$<!--x-->$z");
}

#[test]
fn backslash() {
    check_tokens("<p id=\"a\\\"b\">", "<p id=\"a\\\" b\"=\"\">");
}

#[test]
fn tricky() {
    check_tokens("<p \t\n iD=\"a&quot;B\"  foo=\"bar\"><EM>te&lt;&amp;;xt</em></p>", "<p id=\"a&quot;B\" foo=\"bar\">$<em>$te&lt;&amp;;xt$</em>$</p>");
}

#[test]
fn no_such_entity() {
    check_tokens("<a b=\"c&noSuchEntity;d\">&lt;&alsoDoesntExist;&", "<a b=\"c&noSuchEntity;d\">$&lt;&alsoDoesntExist;&");
}

#[test]
fn entity_without_semicolon() {
    check_tokens("&notit;&notin;<a b=\"q=z&amp=5&notice=hello&not;=world\">", "&notit;&notin;$<a b=\"q=z&amp=5&notice=hello&not;=world\">");
}

#[test]
fn attribute_empty() {
    check_tokens("<input disabled FOO>", "<input disabled=\"\" foo=\"\">");
}

#[test]
fn attribute_empty_with_space() {
    check_tokens("<input disabled FOO >", "<input disabled=\"\" foo=\"\">");
}

#[test]
fn attribute_unquoted() {
    check_tokens("<input value=yes FOO=BAR>", "<input value=\"yes\" foo=\"BAR\">");
}

#[test]
fn attribute_unquoted_with_space() {
    check_tokens("<input value = yes FOO = BAR>", "<input value=\"yes\" foo=\"BAR\">");
}

#[test]
fn attribute_unquoted_with_trailing_space() {
    check_tokens("<input value=yes FOO=BAR >", "<input value=\"yes\" foo=\"BAR\">");
}

#[test]
fn attribute_value_single_quoted() {
    check_tokens("<input value='yes' FOO='BAR'>", "<input value=\"yes\" foo=\"BAR\">");
}

#[test]
fn attribute_value_single_quoted_with_trailing_space() {
    check_tokens("<input value='yes' FOO='BAR' >", "<input value=\"yes\" foo=\"BAR\">");
}

#[test]
fn attribute_value_double_quoted() {
    check_tokens("<input value=\"I'm an attribute\" FOO=\"BAR\">", "<input value=\"I'm an attribute\" foo=\"BAR\">");
}

#[test]
fn attribute_name_characters() {
    check_tokens("<meta http-equiv=\"content-type\">", "<meta http-equiv=\"content-type\">");
}

#[test]
fn attribute_mixed() {
    check_tokens("a<P V=\"0 1\" w='2' X=3 y>z", "a$<p v=\"0 1\" w=\"2\" x=\"3\" y=\"\">$z");
}

#[test]
fn attribute_with_a_solitary_single_quote() {
    check_tokens("<p id=can't><p id=won't>", "<p id=\"can't\">$<p id=\"won't\">");
}

fn raw_tokens(html: &str) -> Vec<(TokenType, String)> {
    let mut tokenizer = Tokenizer::new(html.as_bytes().to_vec());
    let mut out = Vec::new();
    loop {
        let token_type = tokenizer.next();
        if token_type == TokenType::ErrorToken {
            return out;
        }
        out.push((token_type, tokenizer.raw().unwrap()));
    }
}

#[test]
fn tokens_are_cut_where_markup_starts_and_ends() {
    assert_eq!(
        raw_tokens("a < b<p class=x>c</p><br/><!--d--><?e>"),
        vec![
            (TokenType::TextToken, "a < b".to_string()),
            (TokenType::StartTagToken, "<p class=x>".to_string()),
            (TokenType::TextToken, "c".to_string()),
            (TokenType::EndTagToken, "</p>".to_string()),
            (TokenType::SelfClosingTagToken, "<br/>".to_string()),
            (TokenType::CommentToken, "<!--d-->".to_string()),
            (TokenType::CommentToken, "<?e>".to_string()),
        ]
    );
}

#[test]
fn raw_text_ends_at_its_end_tag_in_any_case() {
    assert_eq!(
        raw_tokens("<title>a<b></TITLE >c"),
        vec![
            (TokenType::StartTagToken, "<title>".to_string()),
            (TokenType::TextToken, "a<b>".to_string()),
            (TokenType::EndTagToken, "</TITLE >".to_string()),
            (TokenType::TextToken, "c".to_string()),
        ]
    );
    assert_eq!(
        raw_tokens("<script>if (a</b) {}</script>"),
        vec![
            (TokenType::StartTagToken, "<script>".to_string()),
            (TokenType::TextToken, "if (a</b) {}".to_string()),
            (TokenType::EndTagToken, "</script>".to_string()),
        ]
    );
    assert_eq!(
        raw_tokens("<plaintext>a</plaintext>b"),
        vec![
            (TokenType::StartTagToken, "<plaintext>".to_string()),
            (TokenType::TextToken, "a</plaintext>b".to_string()),
        ]
    );
}

#[test]
fn a_tag_hands_out_its_lowercase_name_and_its_attributes_in_order() {
    let mut t = Tokenizer::new(b"<DIV Class=x data-A='1 2' hidden>".to_vec());
    assert_eq!(t.next(), TokenType::StartTagToken);
    assert_eq!(t.tag_name().unwrap(), (Some("div".to_string()), true));
    assert_eq!(t.tag_attr().unwrap(), (Some("class".to_string()), Some("x".to_string()), true));
    assert_eq!(t.tag_attr().unwrap(), (Some("data-a".to_string()), Some("1 2".to_string()), true));
    assert_eq!(t.tag_attr().unwrap(), (Some("hidden".to_string()), Some(String::new()), false));
    assert_eq!(t.tag_attr().unwrap(), (None, None, false));
    assert_eq!(t.tag_name().unwrap(), (None, false));
}

#[test]
fn a_tag_cut_by_the_end_of_the_input_is_an_error() {
    let mut t = Tokenizer::new(b"<a href=\"x".to_vec());
    assert_eq!(t.next(), TokenType::ErrorToken);
    assert!(t.err().is_some());
}

#[test]
fn a_cdata_section_is_text_where_allowed_and_a_comment_elsewhere() {
    let mut t = Tokenizer::new(b"<![CDATA[x]]]>y".to_vec());
    assert_eq!(t.next(), TokenType::TextToken);
    assert_eq!(t.text().unwrap(), Some("x]".to_string()));
    assert_eq!(t.next(), TokenType::TextToken);
    assert_eq!(t.text().unwrap(), Some("y".to_string()));

    let mut t = Tokenizer::new(b"<![CDATA[x]]>".to_vec());
    assert_eq!(t.next(), TokenType::TextToken);
    assert_eq!(t.text().unwrap(), Some("x]]>".to_string()));
    assert!(t.err().is_some());

    let mut t = Tokenizer::new(b"<![CDATA[x]]>".to_vec());
    t.allow_cdata(false);
    assert_eq!(t.next(), TokenType::CommentToken);
    assert_eq!(t.text().unwrap(), Some("[CDATA[x]]".to_string()));
}

#[test]
fn a_doctype_hands_out_what_follows_its_keyword() {
    let mut t = Tokenizer::new(b"<!doctype  html>x".to_vec());
    assert_eq!(t.next(), TokenType::DoctypeToken);
    assert_eq!(t.text().unwrap(), Some("html".to_string()));
    let mut t = Tokenizer::new(b"</ x><?y>".to_vec());
    assert_eq!(t.next(), TokenType::CommentToken);
    assert_eq!(t.text().unwrap(), Some(" x".to_string()));
    assert_eq!(t.next(), TokenType::CommentToken);
    assert_eq!(t.text().unwrap(), Some("?y".to_string()));
}

#[test]
fn the_end_of_the_input_is_an_eof_error_and_comments_close_at_their_dashes() {
    let mut t = Tokenizer::new(Vec::new());
    assert_eq!(t.next(), TokenType::ErrorToken);
    assert!(t.err().is_some());
    let mut t = Tokenizer::new(b"a<!--x--!>z".to_vec());
    assert_eq!(t.next(), TokenType::TextToken);
    assert_eq!(t.next(), TokenType::CommentToken);
    assert_eq!(t.text().unwrap(), Some("x".to_string()));
    assert_eq!(t.next(), TokenType::TextToken);
    assert_eq!(t.next(), TokenType::ErrorToken);
    let mut t = Tokenizer::new(b"a</>b".to_vec());
    assert_eq!(t.next(), TokenType::TextToken);
    assert_eq!(t.next(), TokenType::CommentToken);
    assert_eq!(t.text().unwrap(), Some(String::new()));
    let mut t = Tokenizer::new(b"<!--x-".to_vec());
    assert_eq!(t.next(), TokenType::CommentToken);
    assert_eq!(t.text().unwrap(), Some("x".to_string()));
}

#[test]
fn a_bang_after_two_dashes_takes_the_next_byte_with_it() {
    let mut t = Tokenizer::new(b"<!--a--!b-->c".to_vec());
    assert_eq!(t.next(), TokenType::CommentToken);
    assert_eq!(t.text().unwrap(), Some("a--!b".to_string()));
    assert_eq!(t.next(), TokenType::TextToken);
    assert_eq!(t.text().unwrap(), Some("c".to_string()));
    let mut t = Tokenizer::new(b"<!--a--!-->".to_vec());
    assert_eq!(t.next(), TokenType::CommentToken);
    assert_eq!(t.text().unwrap(), Some("a--!-->".to_string()));
    assert!(t.err().is_some());
    let mut t = Tokenizer::new(b"<!--a--!".to_vec());
    assert_eq!(t.next(), TokenType::CommentToken);
    assert_eq!(t.text().unwrap(), Some("a--!".to_string()));
    assert!(t.err().is_some());
}

#[test]
fn a_comment_within_max_buffer_reads_as_without_one() {
    let mut t = Tokenizer::new(b"<!--ab-->c".to_vec());
    t.set_max_buffer(10);
    assert_eq!(t.next(), TokenType::CommentToken);
    assert_eq!(t.text().unwrap(), Some("ab".to_string()));
    assert!(t.err().is_none());
}

#[test]
fn a_token_that_reaches_max_buffer_is_an_error() {
    let mut t = Tokenizer::new(b"abcdef<p>".to_vec());
    t.set_max_buffer(4);
    assert_eq!(t.next(), TokenType::TextToken);
    assert!(t.err().is_some());
    assert_eq!(t.raw().unwrap().len(), 4);
    let mut t = Tokenizer::new(b"abc<p>".to_vec());
    t.set_max_buffer(6);
    assert_eq!(t.next(), TokenType::TextToken);
    assert!(t.err().is_none());
    assert_eq!(t.raw().unwrap(), "abc");
}

#[test]
fn raw_text_runs_to_its_end_tag_or_to_the_end_of_the_input() {
    let mut t = Tokenizer::new_fragment(b"<b>x</b></title>".to_vec(), "TITLE".to_string());
    assert_eq!(t.next(), TokenType::TextToken);
    assert_eq!(t.text().unwrap(), Some("<b>x</b>".to_string()));
    assert_eq!(t.next(), TokenType::EndTagToken);
    assert_eq!(t.tag_name().unwrap(), (Some("title".to_string()), false));
    let mut t = Tokenizer::new_fragment(b"a</titlex</titl".to_vec(), "textarea".to_string());
    assert_eq!(t.next(), TokenType::TextToken);
    assert_eq!(t.text().unwrap(), Some("a</titlex</titl".to_string()));
    assert!(t.err().is_some());
    let mut t = Tokenizer::new_fragment(b"<b>x".to_vec(), "div".to_string());
    assert_eq!(t.next(), TokenType::StartTagToken);
}

#[test]
fn a_token_stops_at_max_buffer_with_that_error() {
    let mut t = Tokenizer::new(b"abcdef".to_vec());
    t.set_max_buffer(3);
    assert_eq!(t.next(), TokenType::TextToken);
    assert_eq!(t.raw().unwrap(), "abc");
    assert!(matches!(t.err().unwrap().kind, ErrorKind::MaxBufferError));
    assert_eq!(t.next(), TokenType::ErrorToken);
}
