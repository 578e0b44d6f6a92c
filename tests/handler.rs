use spnego_proxy::b64::encode;
use spnego_proxy::handler::{
    authorization_request, backend_uri, error_response, failure_response, mutual_auth_header,
    parse_authorization_header, Reply,
};

#[test]
fn authorization_header_with_token() {
    assert_eq!(parse_authorization_header(b"Negotiate AAAA"), Some(vec![0, 0, 0]));
    assert_eq!(parse_authorization_header(b"Negotiate YWxpY2U="), Some(b"alice".to_vec()));
}

#[test]
fn authorization_header_with_empty_parameter_has_no_token() {
    assert_eq!(parse_authorization_header(b"Negotiate "), None);
    assert_eq!(parse_authorization_header(b"Negotiate"), None);
}

#[test]
fn authorization_scheme_is_case_sensitive() {
    assert_eq!(parse_authorization_header(b"negotiate AAAA"), None);
    assert_eq!(parse_authorization_header(b"NEGOTIATE AAAA"), None);
    assert_eq!(parse_authorization_header(b"Negotiate  AAAA"), None);
}

#[test]
fn other_schemes_have_no_token() {
    assert_eq!(parse_authorization_header(b"Basic YWxpY2U6cHc="), None);
    assert_eq!(parse_authorization_header(b""), None);
}

#[test]
fn malformed_base64_has_no_token() {
    assert_eq!(parse_authorization_header(b"Negotiate BAD"), None);
    assert_eq!(parse_authorization_header(b"Negotiate Zg"), None);
    assert_eq!(parse_authorization_header(b"Negotiate Zm9v!"), None);
}

#[test]
fn token_reencodes_to_the_header_parameter() {
    for raw in [&b"Negotiate AAAA"[..], b"Negotiate YWxpY2U=", b"Negotiate +/8="] {
        let t = parse_authorization_header(raw).expect("token");
        let mut again = b"Negotiate ".to_vec();
        again.extend(encode(&t));
        assert_eq!(again, raw.to_vec());
    }
}

#[test]
fn challenge_without_token() {
    let r = authorization_request(&[]);
    assert_eq!(
        r,
        Reply { status: 401, www_authenticate: Some(b"Negotiate".to_vec()), body: "No Authorization".to_string() }
    );
}

#[test]
fn challenge_with_token() {
    let r = authorization_request(&[1, 2, 3]);
    assert_eq!(r.status, 401);
    assert_eq!(r.www_authenticate, Some(b"Negotiate AQID".to_vec()));
    assert_eq!(r.body, "No Authorization");
}

#[test]
fn rejected_handshake_response() {
    let r = failure_response();
    assert_eq!(r.status, 401);
    assert_eq!(r.www_authenticate, Some(b"Negotiate".to_vec()));
    assert_eq!(r.body, "Authentication failed");
}

#[test]
fn backend_unreachable_gives_500() {
    let r = error_response();
    assert_eq!(r.status, 500);
    assert_eq!(r.www_authenticate, None);
    assert_eq!(r.body, "Internal server error");
}

#[test]
fn empty_mutual_auth_token_sends_no_header() {
    assert_eq!(mutual_auth_header(&[]), None);
}

#[test]
fn mutual_auth_token_is_sent_in_base64() {
    assert_eq!(mutual_auth_header(b"T4"), Some(b"Negotiate VDQ=".to_vec()));
}

#[test]
fn backend_uri_appends_path_verbatim() {
    assert_eq!(backend_uri("http://backend:8080", "/x?y=1"), "http://backend:8080/x?y=1");
    assert_eq!(backend_uri("https://b", "/"), "https://b/");
}
