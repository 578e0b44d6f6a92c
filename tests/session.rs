use spnego_proxy::b64::encode;
use spnego_proxy::gssapi::GSSError;
use spnego_proxy::gssapi_worker::AcceptResult;
use spnego_proxy::handler::Reply;
use spnego_proxy::session::{Session, Step};

/// Stands for the worker of one connection.
#[derive(Debug)]
struct Worker(u32);

fn header(token: &[u8]) -> Vec<u8> {
    let mut v = b"Negotiate ".to_vec();
    v.extend(encode(token));
    v
}

fn failed() -> AcceptResult {
    AcceptResult::Failed(GSSError::new(0x0009_0000, 0, vec!["defective token".to_string()]))
}

fn no_authorization() -> Reply {
    Reply { status: 401, www_authenticate: Some(b"Negotiate".to_vec()), body: "No Authorization".to_string() }
}

#[test]
fn happy_single_leg_handshake() {
    let mut s = Session::new(Worker(1));
    assert_eq!(s.begin(Some(b"Negotiate AAAA")), Step::Accept(vec![0, 0, 0]));
    assert!(s.is_awaiting());
    let step = s.complete(AcceptResult::Accepted(vec![], "alice@EXAMPLE".to_string()));
    assert_eq!(step, Step::Forward(None));
    assert_eq!(s.principal().map(|p| p.as_str()), Some("alice@EXAMPLE"));
    assert!(s.worker().is_none());
    assert!(!s.is_awaiting());
}

#[test]
fn multi_leg_handshake() {
    let mut s = Session::new(Worker(2));
    assert_eq!(s.begin(None), Step::Respond(no_authorization()));

    let t1 = b"T1".to_vec();
    assert_eq!(s.begin(Some(&header(&t1))), Step::Accept(t1));
    let step = s.complete(AcceptResult::ContinueNeeded(b"T2".to_vec()));
    assert_eq!(
        step,
        Step::Respond(Reply {
            status: 401,
            www_authenticate: Some(header(b"T2")),
            body: "No Authorization".to_string(),
        })
    );
    assert!(s.principal().is_none());

    let t3 = b"T3".to_vec();
    assert_eq!(s.begin(Some(&header(&t3))), Step::Accept(t3));
    let step = s.complete(AcceptResult::Accepted(b"T4".to_vec(), "bob@EX".to_string()));
    assert_eq!(step, Step::Forward(Some(header(b"T4"))));
    assert_eq!(s.principal().map(|p| p.as_str()), Some("bob@EX"));
}

#[test]
fn rejected_handshake_keeps_session_in_progress() {
    let mut s = Session::new(Worker(3));
    let bad = b"BAD".to_vec();
    assert_eq!(s.begin(Some(&header(&bad))), Step::Accept(bad));
    let step = s.complete(failed());
    assert_eq!(
        step,
        Step::Respond(Reply {
            status: 401,
            www_authenticate: Some(b"Negotiate".to_vec()),
            body: "Authentication failed".to_string(),
        })
    );
    assert!(s.principal().is_none());
    assert!(s.worker().is_some());
}

#[test]
fn malformed_negotiate_header_is_challenged() {
    let mut s = Session::new(Worker(4));
    assert_eq!(s.begin(Some(b"Negotiate BAD")), Step::Respond(no_authorization()));
    assert_eq!(s.begin(Some(b"Negotiate ")), Step::Respond(no_authorization()));
    assert_eq!(s.begin(Some(b"negotiate AAAA")), Step::Respond(no_authorization()));
    assert!(!s.is_awaiting());
}

#[test]
fn post_auth_request_is_forwarded_without_challenge() {
    let mut s = Session::new(Worker(5));
    s.begin(Some(b"Negotiate AAAA"));
    s.complete(AcceptResult::Accepted(vec![], "alice@EXAMPLE".to_string()));
    assert_eq!(s.begin(None), Step::Forward(None));
    assert_eq!(s.begin(Some(b"Negotiate AAAA")), Step::Forward(None));
    assert_eq!(s.begin(Some(b"Basic abc")), Step::Forward(None));
    assert_eq!(s.principal().map(|p| p.as_str()), Some("alice@EXAMPLE"));
}

#[test]
fn new_connection_restarts_handshake() {
    let mut first = Session::new(Worker(6));
    first.begin(Some(b"Negotiate AAAA"));
    first.complete(AcceptResult::Accepted(vec![], "alice@EXAMPLE".to_string()));
    drop(first);
    let mut second = Session::new(Worker(7));
    assert_eq!(second.begin(None), Step::Respond(no_authorization()));
    assert!(second.principal().is_none());
}

#[test]
fn replayed_final_leg_on_fresh_connection_is_not_accepted_by_itself() {
    let mut first = Session::new(Worker(8));
    first.begin(Some(&header(b"T1")));
    first.complete(AcceptResult::ContinueNeeded(b"T2".to_vec()));
    first.begin(Some(&header(b"T3")));
    first.complete(AcceptResult::Accepted(b"T4".to_vec(), "bob@EX".to_string()));

    // The replayed leg goes to the fresh connection's own worker, which rejects it.
    let mut second = Session::new(Worker(9));
    assert_eq!(second.begin(Some(&header(b"T3"))), Step::Accept(b"T3".to_vec()));
    assert!(second.principal().is_none());
    second.complete(failed());
    assert!(second.principal().is_none());
    assert_eq!(second.begin(None), Step::Respond(no_authorization()));
}

#[test]
fn worker_invoked_at_most_once_per_request() {
    let mut s = Session::new(Worker(10));
    let requests: Vec<Option<Vec<u8>>> = vec![
        None,
        Some(header(b"T1")),
        Some(b"Negotiate BAD".to_vec()),
        Some(header(b"T3")),
        Some(header(b"T5")),
        None,
    ];
    let outcomes = vec![
        AcceptResult::ContinueNeeded(b"T2".to_vec()),
        AcceptResult::Accepted(vec![], "carol@EX".to_string()),
    ];
    let mut outcomes = outcomes.into_iter();
    let mut invocations = 0;
    for r in &requests {
        let mut per_request = 0;
        match s.begin(r.as_deref()) {
            Step::Accept(_) => {
                per_request += 1;
                match s.complete(outcomes.next().unwrap()) {
                    Step::Accept(_) => panic!("a second invocation for one request"),
                    _ => {}
                }
            }
            _ => {}
        }
        assert!(per_request <= 1);
        invocations += per_request;
    }
    assert_eq!(invocations, 2);
    assert!(invocations <= requests.len());
}

#[test]
fn no_www_authenticate_after_establishment() {
    let mut s = Session::new(Worker(11));
    s.begin(Some(&header(b"T1")));
    assert_eq!(
        s.complete(AcceptResult::Accepted(b"M".to_vec(), "dave@EX".to_string())),
        Step::Forward(Some(header(b"M")))
    );
    for r in [None, Some(&b"Negotiate AAAA"[..]), Some(&b"x"[..])] {
        assert_eq!(s.begin(r), Step::Forward(None));
    }
}

#[test]
fn challenges_carry_base64_or_say_no_authorization() {
    let mut s = Session::new(Worker(12));
    match s.begin(None) {
        Step::Respond(r) => {
            assert_eq!(r.www_authenticate, Some(b"Negotiate".to_vec()));
            assert_eq!(r.body, "No Authorization");
        }
        other => panic!("{:?}", other),
    }
    s.begin(Some(&header(b"T1")));
    match s.complete(AcceptResult::ContinueNeeded(vec![0xfb, 0xff, 7])) {
        Step::Respond(r) => {
            let v = r.www_authenticate.unwrap();
            assert_eq!(&v[..10], b"Negotiate ");
            assert_eq!(spnego_proxy::b64::decode(&v[10..]), Some(vec![0xfb, 0xff, 7]));
        }
        other => panic!("{:?}", other),
    }
}
