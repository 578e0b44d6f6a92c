use crate::text::utf8_to_string;
use vstd::prelude::*;
use vstd::slice::slice_subrange;
use vstd::utf8::{decode_utf8, valid_utf8};

verus! {

/// Why a request head could not be parsed.
#[derive(Debug, Clone, Copy, PartialEq, Eq, Structural)]
pub enum ParseError {
    /// The input ends before the grammar can decide: more bytes are needed.
    Incomplete,
    /// The input does not follow the grammar.
    Invalid,
}

/// A header line: its name, and its value as raw bytes.
#[derive(Debug, PartialEq, Eq)]
pub struct Header {
    name: String,
    value: Vec<u8>,
}

/// A parsed request head.
#[derive(Debug, PartialEq, Eq)]
pub struct Request {
    method: String,
    protocol: String,
    path: Vec<u8>,
    headers: Vec<Header>,
}

struct RequestLine {
    method: String,
    protocol: String,
    path: Vec<u8>,
}

enum State {
    Initial(),
    HasRequestLine(RequestLine, Vec<Header>),
    Finished(Request),
}

/// How far the parsing of one request head has come.
pub struct ParsingState(State);

/// A header as plain values.
pub struct HeaderModel {
    pub name: Seq<char>,
    pub value: Seq<u8>,
}

/// A request line as plain values.
pub struct RequestLineModel {
    pub method: Seq<char>,
    pub path: Seq<u8>,
    pub protocol: Seq<char>,
}

/// A request head as plain values.
pub struct RequestModel {
    pub line: RequestLineModel,
    pub headers: Seq<HeaderModel>,
}

/// A parsing state as plain values.
pub enum StateModel {
    Initial,
    HasRequestLine(RequestLineModel, Seq<HeaderModel>),
    Finished(RequestModel),
}

impl View for Header {
    type V = HeaderModel;

    closed spec fn view(&self) -> HeaderModel {
        HeaderModel { name: self.name@, value: self.value@ }
    }
}

impl View for RequestLine {
    type V = RequestLineModel;

    closed spec fn view(&self) -> RequestLineModel {
        RequestLineModel { method: self.method@, path: self.path@, protocol: self.protocol@ }
    }
}

impl View for Request {
    type V = RequestModel;

    closed spec fn view(&self) -> RequestModel {
        RequestModel {
            line: RequestLineModel { method: self.method@, path: self.path@, protocol: self.protocol@ },
            headers: header_models(self.headers@),
        }
    }
}

impl View for ParsingState {
    type V = StateModel;

    closed spec fn view(&self) -> StateModel {
        state_model(self.0)
    }
}

/// The headers as plain values.
pub closed spec fn header_models(hs: Seq<Header>) -> Seq<HeaderModel> {
    hs.map_values(|h: Header| h@)
}

spec fn state_model(st: State) -> StateModel {
    match st {
        State::Initial() => StateModel::Initial,
        State::HasRequestLine(rl, hs) => StateModel::HasRequestLine(rl@, header_models(hs@)),
        State::Finished(r) => StateModel::Finished(r@),
    }
}

/// The byte classes of the grammar.
#[derive(Clone, Copy)]
pub enum CharClass {
    /// Bytes of a method, a path or a protocol: visible ASCII.
    Uri,
    /// Bytes of a header name: visible ASCII and the space.
    HeaderName,
    /// Bytes of a header value: the tab, visible ASCII with the space, and bytes from 160 up.
    HeaderValue,
}

pub open spec fn is_uri_byte(i: u8) -> bool {
    32 < i < 127
}

pub open spec fn is_header_name_byte(i: u8) -> bool {
    32 <= i < 127
}

pub open spec fn is_header_value_byte(i: u8) -> bool {
    i == 9 || (32 <= i <= 126) || i >= 160
}

pub open spec fn in_class(c: CharClass, b: u8) -> bool {
    match c {
        CharClass::Uri => is_uri_byte(b),
        CharClass::HeaderName => is_header_name_byte(b),
        CharClass::HeaderValue => is_header_value_byte(b),
    }
}

pub fn is_uri_char(i: u8) -> (r: bool)
    ensures
        r == is_uri_byte(i),
{
    i > 32 && i < 127
}

pub fn is_header_name_char(i: u8) -> (r: bool)
    ensures
        r == is_header_name_byte(i),
{
    i >= 32 && i < 127
}

pub fn is_header_value_char(i: u8) -> (r: bool)
    ensures
        r == is_header_value_byte(i),
{
    i == 9 || (i >= 32 && i <= 126) || i >= 160
}

/// The space that separates the parts of a request line and a header line.
pub open spec fn space() -> Seq<u8> {
    seq![32u8]
}

/// CR LF.
pub open spec fn newline() -> Seq<u8> {
    seq![13u8, 10u8]
}

/// The empty line that ends the headers, with the line break before it.
pub open spec fn end_of_headers() -> Seq<u8> {
    newline() + newline()
}

/// The end of the run of bytes of class `c` that starts at `i`: the first index from `i` on
/// whose byte is not in the class. `None` where the run reaches the end of the input, so
/// that more input is needed to know where it ends.
pub open spec fn run_end(s: Seq<u8>, i: int, c: CharClass) -> Option<int>
    decreases s.len() - i,
{
    if i >= s.len() {
        None
    } else if !in_class(c, s[i]) {
        Some(i)
    } else {
        run_end(s, i + 1, c)
    }
}

/// Whether the input holds `t` at `i`: `Invalid` at the first byte that differs, and
/// `Incomplete` where the input ends before `t` does.
pub open spec fn tag_at(s: Seq<u8>, i: int, t: Seq<u8>) -> Result<(), ParseError> {
    if s.len() - i >= t.len() {
        if s.subrange(i, i + t.len()) == t {
            Ok(())
        } else {
            Err(ParseError::Invalid)
        }
    } else if t.subrange(0, s.len() - i) == s.subrange(i, s.len() as int) {
        Err(ParseError::Incomplete)
    } else {
        Err(ParseError::Invalid)
    }
}

/// A request line at `i`: method, a space, path, a space, protocol and CR LF, where method,
/// path and protocol are runs of URI bytes, and method and protocol are UTF-8 text. On
/// success: the index after the line, and its parts.
pub open spec fn request_line_at(s: Seq<u8>, i: int) -> Result<(int, RequestLineModel), ParseError> {
    match run_end(s, i, CharClass::Uri) {
        None => Err(ParseError::Incomplete),
        Some(m) => if !valid_utf8(s.subrange(i, m)) {
            Err(ParseError::Invalid)
        } else {
            match tag_at(s, m, space()) {
                Err(e) => Err(e),
                Ok(_) => match run_end(s, m + 1, CharClass::Uri) {
                    None => Err(ParseError::Incomplete),
                    Some(p) => match tag_at(s, p, space()) {
                        Err(e) => Err(e),
                        Ok(_) => match run_end(s, p + 1, CharClass::Uri) {
                            None => Err(ParseError::Incomplete),
                            Some(q) => if !valid_utf8(s.subrange(p + 1, q)) {
                                Err(ParseError::Invalid)
                            } else {
                                match tag_at(s, q, newline()) {
                                    Err(e) => Err(e),
                                    Ok(_) => Ok((q + 2, RequestLineModel {
                                        method: decode_utf8(s.subrange(i, m)),
                                        path: s.subrange(m + 1, p),
                                        protocol: decode_utf8(s.subrange(p + 1, q)),
                                    })),
                                }
                            },
                        },
                    },
                },
            }
        },
    }
}

/// A header line at `i`: a run of header-name bytes that is UTF-8 text, a space, and a run
/// of header-value bytes.
pub open spec fn header_line_at(s: Seq<u8>, i: int) -> Result<(int, HeaderModel), ParseError> {
    match run_end(s, i, CharClass::HeaderName) {
        None => Err(ParseError::Incomplete),
        Some(n) => if !valid_utf8(s.subrange(i, n)) {
            Err(ParseError::Invalid)
        } else {
            match tag_at(s, n, space()) {
                Err(e) => Err(e),
                Ok(_) => match run_end(s, n + 1, CharClass::HeaderValue) {
                    None => Err(ParseError::Incomplete),
                    Some(v) => Ok((v, HeaderModel {
                        name: decode_utf8(s.subrange(i, n)),
                        value: s.subrange(n + 1, v),
                    })),
                },
            }
        },
    }
}

/// What follows at `i` once the request line is read: the end of the headers (`None`), or,
/// where that does not match, a header line.
pub open spec fn next_header_at(s: Seq<u8>, i: int) -> Result<(int, Option<HeaderModel>), ParseError> {
    match tag_at(s, i, end_of_headers()) {
        Ok(_) => Ok((i + 4, None)),
        Err(ParseError::Incomplete) => Err(ParseError::Incomplete),
        Err(ParseError::Invalid) => match header_line_at(s, i) {
            Ok((e, h)) => Ok((e, Some(h))),
            Err(e) => Err(e),
        },
    }
}

pub proof fn lemma_run_end(s: Seq<u8>, i: int, c: CharClass)
    requires
        0 <= i,
    ensures
        run_end(s, i, c) matches Some(j) ==> i <= j < s.len() && !in_class(c, s[j])
            && forall|k: int| i <= k < j ==> in_class(c, #[trigger] s[k]),
        run_end(s, i, c) is None ==> forall|k: int| i <= k < s.len() ==> in_class(c, #[trigger] s[k]),
    decreases s.len() - i,
{
    if i < s.len() && in_class(c, s[i]) {
        lemma_run_end(s, i + 1, c);
    }
}

pub proof fn lemma_tag_at(s: Seq<u8>, i: int, t: Seq<u8>)
    requires
        0 <= i <= s.len(),
    ensures
        tag_at(s, i, t) is Ok ==> i + t.len() <= s.len(),
{
}

pub proof fn lemma_request_line_progress(s: Seq<u8>, i: int)
    requires
        0 <= i <= s.len(),
    ensures
        request_line_at(s, i) matches Ok((e, _)) ==> i < e <= s.len(),
{
    lemma_run_end(s, i, CharClass::Uri);
    if let Some(m) = run_end(s, i, CharClass::Uri) {
        lemma_run_end(s, m + 1, CharClass::Uri);
        if let Some(p) = run_end(s, m + 1, CharClass::Uri) {
            lemma_run_end(s, p + 1, CharClass::Uri);
            if let Some(q) = run_end(s, p + 1, CharClass::Uri) {
                lemma_tag_at(s, q, newline());
            }
        }
    }
}

pub proof fn lemma_next_header_progress(s: Seq<u8>, i: int)
    requires
        0 <= i <= s.len(),
    ensures
        next_header_at(s, i) matches Ok((e, _)) ==> i < e <= s.len(),
{
    lemma_tag_at(s, i, end_of_headers());
    lemma_run_end(s, i, CharClass::HeaderName);
    if let Some(n) = run_end(s, i, CharClass::HeaderName) {
        lemma_run_end(s, n + 1, CharClass::HeaderValue);
    }
}

/// The request head that a finished parse holds.
pub open spec fn finished(rl: RequestLineModel, hs: Seq<HeaderModel>) -> RequestModel {
    RequestModel { line: rl, headers: hs }
}

/// Parsing from `i` in state `st`: the request line first, then header lines until the
/// end of the headers. On success: the index after what was read, and the state reached. A
/// finished state reads nothing more.
pub open spec fn parse_at(s: Seq<u8>, i: int, st: StateModel) -> Result<(int, StateModel), ParseError>
    decreases s.len() - i,
{
    if i < 0 || i > s.len() {
        Err(ParseError::Invalid)
    } else {
        match st {
            StateModel::Finished(_) => Ok((i, st)),
            StateModel::Initial => match request_line_at(s, i) {
                Err(e) => Err(e),
                Ok((e, rl)) => {
                    proof {
                        lemma_request_line_progress(s, i);
                    }
                    parse_at(s, e, StateModel::HasRequestLine(rl, seq![]))
                },
            },
            StateModel::HasRequestLine(rl, hs) => match next_header_at(s, i) {
                Err(e) => Err(e),
                Ok((e, None)) => Ok((e, StateModel::Finished(finished(rl, hs)))),
                Ok((e, Some(h))) => {
                    proof {
                        lemma_next_header_progress(s, i);
                    }
                    parse_at(s, e, StateModel::HasRequestLine(rl, hs.push(h)))
                },
            },
        }
    }
}

fn class_contains(c: CharClass, b: u8) -> (r: bool)
    ensures
        r == in_class(c, b),
{
    match c {
        CharClass::Uri => is_uri_char(b),
        CharClass::HeaderName => is_header_name_char(b),
        CharClass::HeaderValue => is_header_value_char(b),
    }
}

/// `run_end`, computed.
fn scan_run(buf: &[u8], i: usize, c: CharClass) -> (r: Option<usize>)
    requires
        i <= buf@.len(),
    ensures
        match r {
            Some(j) => run_end(buf@, i as int, c) == Some(j as int),
            None => run_end(buf@, i as int, c) is None,
        },
{
    let mut j: usize = i;
    while j < buf.len()
        invariant
            i <= j <= buf@.len(),
            run_end(buf@, i as int, c) == run_end(buf@, j as int, c),
        decreases buf@.len() - j,
    {
        if !class_contains(c, buf[j]) {
            return Some(j);
        }
        j = j + 1;
    }
    None
}

/// `tag_at`, computed.
fn match_tag(buf: &[u8], i: usize, t: &[u8]) -> (r: Result<(), ParseError>)
    requires
        i <= buf@.len(),
    ensures
        r == tag_at(buf@, i as int, t@),
{
    let ghost s = buf@;
    let n = buf.len();
    let mut k: usize = 0;
    while k < t.len()
        invariant
            n == s.len(),
            i <= s.len(),
            s == buf@,
            k <= t@.len(),
            i + k <= s.len(),
            forall|j: int| 0 <= j < k ==> s[i + j] == t@[j],
        decreases t@.len() - k,
    {
        if i + k >= n {
            assert(t@.subrange(0, s.len() - i) =~= s.subrange(i as int, s.len() as int));
            return Err(ParseError::Incomplete);
        }
        if buf[i + k] != t[k] {
            proof {
                if s.len() - i >= t@.len() {
                    assert(s.subrange(i as int, i + t@.len())[k as int] != t@[k as int]);
                } else {
                    assert(t@.subrange(0, s.len() - i)[k as int] != s.subrange(i as int, s.len() as int)[k as int]);
                }
            }
            return Err(ParseError::Invalid);
        }
        k = k + 1;
    }
    assert(s.subrange(i as int, i + t@.len()) =~= t@);
    Ok(())
}

fn text_of(buf: &[u8], from: usize, to: usize) -> (r: Option<String>)
    requires
        from <= to <= buf@.len(),
    ensures
        r is Some <==> valid_utf8(buf@.subrange(from as int, to as int)),
        r matches Some(t) ==> t@ == decode_utf8(buf@.subrange(from as int, to as int)),
{
    utf8_to_string(slice_subrange(buf, from, to))
}

fn bytes_of(buf: &[u8], from: usize, to: usize) -> (r: Vec<u8>)
    requires
        from <= to <= buf@.len(),
    ensures
        r@ == buf@.subrange(from as int, to as int),
{
    let mut r: Vec<u8> = Vec::new();
    let mut k: usize = from;
    while k < to
        invariant
            from <= k <= to <= buf@.len(),
            r@ == buf@.subrange(from as int, k as int),
        decreases to - k,
    {
        r.push(buf[k]);
        k = k + 1;
        assert(r@ =~= buf@.subrange(from as int, k as int));
    }
    r
}

fn space_bytes() -> (r: Vec<u8>)
    ensures
        r@ == space(),
{
    let r = vec![32u8];
    assert(r@ =~= space());
    r
}

fn newline_bytes() -> (r: Vec<u8>)
    ensures
        r@ == newline(),
{
    let r = vec![13u8, 10u8];
    assert(r@ =~= newline());
    r
}

fn parse_request_line(buf: &[u8], i: usize) -> (r: Result<(usize, RequestLine), ParseError>)
    requires
        i <= buf@.len(),
    ensures
        match r {
            Ok((e, rl)) => request_line_at(buf@, i as int) == Ok::<(int, RequestLineModel), ParseError>((e as int, rl@)),
            Err(x) => request_line_at(buf@, i as int) == Err::<(int, RequestLineModel), ParseError>(x),
        },
{
    let _ = buf.len();
    let sp = space_bytes();
    let nl = newline_bytes();
    proof {
        lemma_run_end(buf@, i as int, CharClass::Uri);
    }
    let m = match scan_run(buf, i, CharClass::Uri) {
        None => return Err(ParseError::Incomplete),
        Some(m) => m,
    };
    let method = match text_of(buf, i, m) {
        None => return Err(ParseError::Invalid),
        Some(t) => t,
    };
    match match_tag(buf, m, sp.as_slice()) {
        Err(e) => return Err(e),
        Ok(_) => {},
    }
    proof {
        lemma_run_end(buf@, m + 1, CharClass::Uri);
    }
    let p = match scan_run(buf, m + 1, CharClass::Uri) {
        None => return Err(ParseError::Incomplete),
        Some(p) => p,
    };
    match match_tag(buf, p, sp.as_slice()) {
        Err(e) => return Err(e),
        Ok(_) => {},
    }
    proof {
        lemma_run_end(buf@, p + 1, CharClass::Uri);
    }
    let q = match scan_run(buf, p + 1, CharClass::Uri) {
        None => return Err(ParseError::Incomplete),
        Some(q) => q,
    };
    let protocol = match text_of(buf, p + 1, q) {
        None => return Err(ParseError::Invalid),
        Some(t) => t,
    };
    match match_tag(buf, q, nl.as_slice()) {
        Err(e) => return Err(e),
        Ok(_) => {},
    }
    let path = bytes_of(buf, m + 1, p);
    Ok((q + 2, RequestLine { method, protocol, path }))
}

fn parse_next_header(buf: &[u8], i: usize) -> (r: Result<(usize, Option<Header>), ParseError>)
    requires
        i <= buf@.len(),
    ensures
        match r {
            Ok((e, Some(h))) => next_header_at(buf@, i as int) == Ok::<(int, Option<HeaderModel>), ParseError>((e as int, Some(h@))),
            Ok((e, None)) => next_header_at(buf@, i as int) == Ok::<(int, Option<HeaderModel>), ParseError>((e as int, None)),
            Err(x) => next_header_at(buf@, i as int) == Err::<(int, Option<HeaderModel>), ParseError>(x),
        },
{
    let _ = buf.len();
    let mut eoh = newline_bytes();
    let mut nl = newline_bytes();
    eoh.append(&mut nl);
    assert(eoh@ =~= end_of_headers());
    proof {
        lemma_tag_at(buf@, i as int, end_of_headers());
    }
    match match_tag(buf, i, eoh.as_slice()) {
        Ok(_) => return Ok((i + 4, None)),
        Err(ParseError::Incomplete) => return Err(ParseError::Incomplete),
        Err(ParseError::Invalid) => {},
    }
    let sp = space_bytes();
    proof {
        lemma_run_end(buf@, i as int, CharClass::HeaderName);
    }
    let n = match scan_run(buf, i, CharClass::HeaderName) {
        None => return Err(ParseError::Incomplete),
        Some(n) => n,
    };
    let name = match text_of(buf, i, n) {
        None => return Err(ParseError::Invalid),
        Some(t) => t,
    };
    match match_tag(buf, n, sp.as_slice()) {
        Err(e) => return Err(e),
        Ok(_) => {},
    }
    proof {
        lemma_run_end(buf@, n + 1, CharClass::HeaderValue);
    }
    let v = match scan_run(buf, n + 1, CharClass::HeaderValue) {
        None => return Err(ParseError::Incomplete),
        Some(v) => v,
    };
    let value = bytes_of(buf, n + 1, v);
    Ok((v, Some(Header { name, value })))
}

/// A parsing state at the start of a request head.
pub fn new_parsing_state() -> (r: ParsingState)
    ensures
        r@ == StateModel::Initial,
{
    ParsingState(State::Initial())
}

/// Parses as much of a request head as `buf` holds, from `parsing_state` on. On success:
/// how many bytes were read, and the state reached; the head is complete once that state
/// is finished.
pub fn parse(buf: &[u8], parsing_state: ParsingState) -> (r: Result<(usize, ParsingState), ParseError>)
    ensures
        match r {
            Ok((n, st)) => parse_at(buf@, 0, parsing_state@) == Ok::<(int, StateModel), ParseError>((n as int, st@)),
            Err(e) => parse_at(buf@, 0, parsing_state@) == Err::<(int, StateModel), ParseError>(e),
        },
{
    let ghost st0 = parsing_state@;
    let mut state = parsing_state.0;
    let mut pos: usize = 0;
    loop
        invariant
            pos <= buf@.len(),
            st0 == parsing_state@,
            parse_at(buf@, 0, st0) == parse_at(buf@, pos as int, state_model(state)),
        decreases buf@.len() - pos,
    {
        match state {
            State::Finished(req) => {
                return Ok((pos, ParsingState(State::Finished(req))));
            },
            State::Initial() => {
                match parse_request_line(buf, pos) {
                    Err(e) => return Err(e),
                    Ok((e, rl)) => {
                        proof {
                            lemma_request_line_progress(buf@, pos as int);
                            assert(header_models(Seq::<Header>::empty()) =~= seq![]);
                        }
                        let headers: Vec<Header> = Vec::new();
                        pos = e;
                        state = State::HasRequestLine(rl, headers);
                    },
                }
            },
            State::HasRequestLine(rl, headers) => {
                let mut headers = headers;
                match parse_next_header(buf, pos) {
                    Err(e) => return Err(e),
                    Ok((e, None)) => {
                        let req = Request { method: rl.method, protocol: rl.protocol, path: rl.path, headers };
                        return Ok((e, ParsingState(State::Finished(req))));
                    },
                    Ok((e, Some(h))) => {
                        proof {
                            lemma_next_header_progress(buf@, pos as int);
                        }
                        let ghost before = headers@;
                        headers.push(h);
                        assert(header_models(headers@) =~= header_models(before).push(h@));
                        pos = e;
                        state = State::HasRequestLine(rl, headers);
                    },
                }
            },
        }
    }
}

impl ParsingState {
    /// The request head, once parsing has finished.
    pub fn request(&self) -> (r: Option<&Request>)
        ensures
            match r {
                Some(q) => self@ == StateModel::Finished(q@),
                None => !(self@ is Finished),
            },
    {
        match &self.0 {
            State::Finished(q) => Some(q),
            _ => None,
        }
    }
}

impl Request {
    pub fn method(&self) -> (r: &str)
        ensures
            r@ == self@.line.method,
    {
        self.method.as_str()
    }

    pub fn path(&self) -> (r: &[u8])
        ensures
            r@ == self@.line.path,
    {
        self.path.as_slice()
    }

    pub fn protocol(&self) -> (r: &str)
        ensures
            r@ == self@.line.protocol,
    {
        self.protocol.as_str()
    }

    pub fn headers(&self) -> (r: &[Header])
        ensures
            header_models(r@) == self@.headers,
    {
        self.headers.as_slice()
    }
}

impl Header {
    pub fn name(&self) -> (r: &str)
        ensures
            r@ == self@.name,
    {
        self.name.as_str()
    }

    pub fn value(&self) -> (r: &[u8])
        ensures
            r@ == self@.value,
    {
        self.value.as_slice()
    }
}

} // verus!
