use redirectionio::http::{is_default_port, strip_default_port, without_default_port};

#[test]
fn default_ports_are_dropped_and_anything_else_is_left_untouched() {
    let cases = [
        ("example.org:443", "example.org"),
        ("example.org:80", "example.org"),
        ("EXAMPLE.ORG:443", "EXAMPLE.ORG"),
        ("example.org.:443", "example.org."),
        ("example.org:8080", "example.org:8080"),
        ("example.org", "example.org"),
        ("[::1]:443", "[::1]"),
        ("[::1]:80", "[::1]"),
        ("[::1]:8080", "[::1]:8080"),
        ("[::1]", "[::1]"),
        ("::1", "::1"),
        ("fe80::443", "fe80::443"),
        ("@domain:443", "@domain"),
        ("port-@port.example.org:443", "port-@port.example.org"),
        ("", ""),
        (":443", ":443"),
        ("example.org:", "example.org:"),
        ("example.org:0443", "example.org:0443"),
        ("example.org:443x", "example.org:443x"),
    ];

    for (input, expected) in cases {
        assert_eq!(strip_default_port(input), expected, "strip_default_port({input:?})");
        assert_eq!(without_default_port(input.to_string()), expected, "without_default_port({input:?})");
    }
}

#[test]
fn only_80_and_443_are_default_ports() {
    assert!(is_default_port("80"));
    assert!(is_default_port("443"));
    assert!(!is_default_port("8080"));
    assert!(!is_default_port("0443"));
    assert!(!is_default_port(""));
}

#[test]
fn a_name_with_a_colon_keeps_its_port_and_stripping_twice_is_stripping_once() {
    assert_eq!(strip_default_port("a:443:443"), "a:443:443");
    assert_eq!(strip_default_port(strip_default_port("example.org:443")), "example.org");
}
