use crate::b64::{b64_decode, b64_encode, decode, encode, lemma_decode_encode, lemma_encode_decode};
use vstd::prelude::*;
use vstd::slice::slice_subrange;

verus! {

/// The scheme token `Negotiate`, in ASCII.
pub open spec fn negotiate_scheme() -> Seq<u8> {
    seq![78u8, 101u8, 103u8, 111u8, 116u8, 105u8, 97u8, 116u8, 101u8]
}

/// The scheme token followed by one space: what precedes a token in a header.
pub open spec fn negotiate_prefix() -> Seq<u8> {
    negotiate_scheme().push(32u8)
}

/// The value of a `WWW-Authenticate` header that carries `token`: the bare scheme for an
/// empty token, else the scheme, a space and the token in base64.
pub open spec fn negotiate_value(token: Seq<u8>) -> Seq<u8> {
    if token.len() == 0 {
        negotiate_scheme()
    } else {
        negotiate_prefix() + b64_encode(token)
    }
}

/// The parameter of a `Negotiate` header value: what follows the scheme and a space.
pub open spec fn header_param(value: Seq<u8>) -> Option<Seq<u8>> {
    if value.len() >= 10 && value.subrange(0, 10) == negotiate_prefix() {
        Some(value.subrange(10, value.len() as int))
    } else {
        None
    }
}

/// The token that an `Authorization` header value carries: it begins with `Negotiate `
/// (case-sensitive) and the rest is non-empty, well-formed base64. Any other value carries
/// no token.
pub open spec fn authorization_token(raw: Seq<u8>) -> Option<Seq<u8>> {
    match header_param(raw) {
        Some(p) => match b64_decode(p) {
            Some(t) => if t.len() > 0 { Some(t) } else { None },
            None => None,
        },
        None => None,
    }
}

/// The token of an optional `Authorization` header.
pub open spec fn request_token(authorization: Option<Seq<u8>>) -> Option<Seq<u8>> {
    match authorization {
        Some(raw) => authorization_token(raw),
        None => None,
    }
}

fn negotiate_scheme_bytes() -> (r: Vec<u8>)
    ensures
        r@ == negotiate_scheme(),
{
    let r = vec![78u8, 101u8, 103u8, 111u8, 116u8, 105u8, 97u8, 116u8, 101u8];
    assert(r@ =~= negotiate_scheme());
    r
}

/// The token that the value of an `Authorization` header carries, if any.
pub fn parse_authorization_header(raw: &[u8]) -> (r: Option<Vec<u8>>)
    ensures
        match r {
            Some(t) => authorization_token(raw@) == Some(t@),
            None => authorization_token(raw@) is None,
        },
{
    let mut prefix = negotiate_scheme_bytes();
    prefix.push(32u8);
    if raw.len() < 10 {
        return None;
    }
    let mut i: usize = 0;
    while i < 10
        invariant
            i <= 10 <= raw@.len(),
            prefix@ == negotiate_prefix(),
            forall|j: int| 0 <= j < i ==> raw@[j] == prefix@[j],
        decreases 10 - i,
    {
        if raw[i] != prefix[i] {
            assert(raw@.subrange(0, 10)[i as int] != negotiate_prefix()[i as int]);
            return None;
        }
        i = i + 1;
    }
    assert(raw@.subrange(0, 10) =~= negotiate_prefix());
    let param = slice_subrange(raw, 10, raw.len());
    match decode(param) {
        Some(t) => {
            if t.len() == 0 {
                None
            } else {
                Some(t)
            }
        },
        None => None,
    }
}

/// A response that the handler gives itself, without the backend.
#[derive(Debug, Clone, PartialEq, Eq)]
pub struct Reply {
    pub status: u16,
    /// The value of the `WWW-Authenticate` header, if the response has one.
    pub www_authenticate: Option<Vec<u8>>,
    pub body: String,
}

/// A response as plain values.
pub struct ReplyView {
    pub status: u16,
    pub www_authenticate: Option<Seq<u8>>,
    pub body: Seq<char>,
}

impl View for Reply {
    type V = ReplyView;

    open spec fn view(&self) -> ReplyView {
        ReplyView {
            status: self.status,
            www_authenticate: match self.www_authenticate {
                Some(v) => Some(v@),
                None => None,
            },
            body: self.body@,
        }
    }
}

/// The body of a challenge.
pub open spec fn no_authorization_body() -> Seq<char> {
    "No Authorization"@
}

/// The body of a response to a rejected handshake.
pub open spec fn failure_body() -> Seq<char> {
    "Authentication failed"@
}

/// The body of a response to a backend that could not be reached.
pub open spec fn internal_error_body() -> Seq<char> {
    "Internal server error"@
}

/// A 401 challenge that carries `token`.
pub open spec fn challenge(token: Seq<u8>) -> ReplyView {
    ReplyView {
        status: 401,
        www_authenticate: Some(negotiate_value(token)),
        body: no_authorization_body(),
    }
}

/// The 401 response to a handshake that the mechanism rejected.
pub open spec fn failure() -> ReplyView {
    ReplyView { status: 401, www_authenticate: Some(negotiate_scheme()), body: failure_body() }
}

/// The 500 response to a backend that could not be reached.
pub open spec fn internal_error() -> ReplyView {
    ReplyView { status: 500, www_authenticate: None, body: internal_error_body() }
}

/// The `WWW-Authenticate` value for a response that completes a handshake: none for an
/// empty mutual-authentication token.
pub open spec fn mutual_auth(token: Seq<u8>) -> Option<Seq<u8>> {
    if token.len() == 0 {
        None
    } else {
        Some(negotiate_value(token))
    }
}

fn negotiate_header(token: &[u8]) -> (r: Vec<u8>)
    requires
        token@.len() <= isize::MAX,
    ensures
        r@ == negotiate_value(token@),
{
    let mut r = negotiate_scheme_bytes();
    if token.len() > 0 {
        r.push(32u8);
        let mut enc = encode(token);
        r.append(&mut enc);
    }
    r
}

/// A 401 challenge: `WWW-Authenticate: Negotiate`, followed by the token in base64 unless
/// it is empty.
pub fn authorization_request(token: &[u8]) -> (r: Reply)
    requires
        token@.len() <= isize::MAX,
    ensures
        r@ == challenge(token@),
{
    Reply {
        status: 401,
        www_authenticate: Some(negotiate_header(token)),
        body: String::from_str("No Authorization"),
    }
}

/// The response to a handshake that the mechanism rejected. It tells the client nothing of
/// the mechanism's diagnostic.
pub fn failure_response() -> (r: Reply)
    ensures
        r@ == failure(),
{
    Reply {
        status: 401,
        www_authenticate: Some(negotiate_scheme_bytes()),
        body: String::from_str("Authentication failed"),
    }
}

/// The response to a request that could not be sent to the backend.
pub fn error_response() -> (r: Reply)
    ensures
        r@ == internal_error(),
{
    Reply { status: 500, www_authenticate: None, body: String::from_str("Internal server error") }
}

/// The `WWW-Authenticate` value to put on the backend's response to the request that
/// completed a handshake with the mutual-authentication token `token`.
pub fn mutual_auth_header(token: &[u8]) -> (r: Option<Vec<u8>>)
    requires
        token@.len() <= isize::MAX,
    ensures
        match r {
            Some(v) => mutual_auth(token@) == Some(v@),
            None => mutual_auth(token@) is None,
        },
{
    if token.len() == 0 {
        None
    } else {
        Some(negotiate_header(token))
    }
}

/// The backend URI for a request: the backend's base followed by the request's path and
/// query, verbatim.
pub fn backend_uri(backend: &str, path_and_query: &str) -> (r: String)
    ensures
        r@ == backend@ + path_and_query@,
{
    let mut r = String::from_str(backend);
    r.append(path_and_query);
    r
}

/// A token that a client sends is recovered exactly: encoding the token that a header
/// value carries, after the scheme and a space, gives that header value back.
pub proof fn lemma_token_reencodes(raw: Seq<u8>)
    ensures
        authorization_token(raw) matches Some(t) ==> negotiate_prefix() + b64_encode(t) == raw,
{
    if let Some(t) = authorization_token(raw) {
        let p = raw.subrange(10, raw.len() as int);
        lemma_encode_decode(p);
        assert(raw =~= raw.subrange(0, 10) + p);
    }
}

/// The header value that carries a non-empty token in base64 carries exactly that token.
pub proof fn lemma_token_of_encoding(t: Seq<u8>)
    requires
        t.len() > 0,
    ensures
        authorization_token(negotiate_prefix() + b64_encode(t)) == Some(t),
{
    let raw = negotiate_prefix() + b64_encode(t);
    assert(raw.subrange(0, 10) =~= negotiate_prefix());
    assert(raw.subrange(10, raw.len() as int) =~= b64_encode(t));
    lemma_decode_encode(t);
}

} // verus!
