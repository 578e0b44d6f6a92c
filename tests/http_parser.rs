use spnego_proxy::http_parser::{
    is_header_name_char, is_header_value_char, is_uri_char, new_parsing_state, parse, ParseError,
};

#[test]
fn request_line_and_end_of_headers() {
    // The request line ends with its own line break; the end of the headers is two more.
    let buf = b"GET /index.html HTTP/1.1\r\n\r\n\r\n";
    let (n, st) = parse(buf, new_parsing_state()).expect("parses");
    assert_eq!(n, buf.len());
    let req = st.request().expect("finished");
    assert_eq!(req.method(), "GET");
    assert_eq!(req.path(), b"/index.html");
    assert_eq!(req.protocol(), "HTTP/1.1");
    assert!(req.headers().is_empty());
}

#[test]
fn parsing_stops_after_the_head() {
    let buf = b"POST /a HTTP/1.0\r\n\r\n\r\nbody";
    let (n, st) = parse(buf, new_parsing_state()).expect("parses");
    assert_eq!(n, buf.len() - 4);
    assert_eq!(st.request().expect("finished").method(), "POST");
}

#[test]
fn finished_state_reads_nothing_more() {
    let (_, st) = parse(b"GET / HTTP/1.1\r\n\r\n\r\n", new_parsing_state()).expect("parses");
    let (n, st) = parse(b"anything", st).expect("finished");
    assert_eq!(n, 0);
    assert_eq!(st.request().expect("finished").path(), b"/");
}

#[test]
fn truncated_input_is_incomplete() {
    assert_eq!(parse(b"", new_parsing_state()).err(), Some(ParseError::Incomplete));
    assert_eq!(parse(b"GET / HT", new_parsing_state()).err(), Some(ParseError::Incomplete));
    assert_eq!(parse(b"GET / HTTP/1.1\r", new_parsing_state()).err(), Some(ParseError::Incomplete));
    assert_eq!(parse(b"GET / HTTP/1.1\r\n\r", new_parsing_state()).err(), Some(ParseError::Incomplete));
    assert_eq!(parse(b"GET / HTTP/1.1\r\n\r\n", new_parsing_state()).err(), Some(ParseError::Incomplete));
}

#[test]
fn malformed_request_line_is_invalid() {
    assert_eq!(parse(b"GET\t/ HTTP/1.1\r\n\r\n", new_parsing_state()).err(), Some(ParseError::Invalid));
    assert_eq!(parse(b"GET / HTTP/1.1\n\n", new_parsing_state()).err(), Some(ParseError::Invalid));
}

#[test]
fn header_name_run_takes_the_space() {
    // The name class holds the space, so the name runs to the end of the line and the
    // space that should follow it is missing.
    let buf = b"GET / HTTP/1.1\r\nHost: example\r\n\r\n";
    assert_eq!(parse(buf, new_parsing_state()).err(), Some(ParseError::Invalid));
    let buf = b"GET / HTTP/1.1\r\nHost example\r\n\r\n";
    assert_eq!(parse(buf, new_parsing_state()).err(), Some(ParseError::Invalid));
}

#[test]
fn byte_classes() {
    assert!(is_uri_char(b'G'));
    assert!(is_uri_char(b'~'));
    assert!(!is_uri_char(b' '));
    assert!(!is_uri_char(127));
    assert!(is_header_name_char(b' '));
    assert!(!is_header_name_char(b'\r'));
    assert!(is_header_value_char(b'\t'));
    assert!(is_header_value_char(200));
    assert!(!is_header_value_char(127));
    assert!(!is_header_value_char(150));
}
