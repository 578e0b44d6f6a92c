use crate::b64::{b64_encode, is_b64};
use crate::gssapi_worker::{AcceptOutcome, AcceptResult};
use crate::handler::{
    authorization_request, challenge, failure, failure_response, header_param, mutual_auth,
    mutual_auth_header, negotiate_prefix, negotiate_value, no_authorization_body,
    parse_authorization_header, request_token, Reply, ReplyView,
};
use vstd::prelude::*;

verus! {

/// Where the handshake of one connection stands. `W` is the worker that runs the acceptor
/// steps of this connection.
#[derive(Debug)]
pub enum AuthPhase<W> {
    /// The handshake is not complete.
    InProgress(W),
    /// The handshake completed for this principal; the worker is gone.
    Established(String),
}

/// The authentication state of one client connection.
#[derive(Debug)]
pub struct Session<W> {
    phase: AuthPhase<W>,
    /// An acceptor step has been handed out and its outcome not yet taken.
    awaiting: bool,
}

/// A session as plain values.
pub struct SessionView {
    /// The principal, once the handshake is complete.
    pub established: Option<Seq<char>>,
    pub awaiting: bool,
}

impl<W> View for Session<W> {
    type V = SessionView;

    closed spec fn view(&self) -> SessionView {
        SessionView {
            established: match self.phase {
                AuthPhase::InProgress(_) => None,
                AuthPhase::Established(p) => Some(p@),
            },
            awaiting: self.awaiting,
        }
    }
}

/// What the caller does next for a request.
#[derive(Debug, PartialEq, Eq)]
pub enum Step {
    /// Answer the client with this response.
    Respond(Reply),
    /// Hand this token to the session's worker, and the outcome to `complete`.
    Accept(Vec<u8>),
    /// Send the request to the backend; put this `WWW-Authenticate` value on its response.
    Forward(Option<Vec<u8>>),
}

/// A step as plain values.
pub enum StepView {
    Respond(ReplyView),
    Accept(Seq<u8>),
    Forward(Option<Seq<u8>>),
}

impl View for Step {
    type V = StepView;

    open spec fn view(&self) -> StepView {
        match self {
            Step::Respond(r) => StepView::Respond(r@),
            Step::Accept(t) => StepView::Accept(t@),
            Step::Forward(h) => StepView::Forward(
                match h {
                    Some(v) => Some(v@),
                    None => None,
                },
            ),
        }
    }
}

/// A fresh session: handshake in progress, nothing handed out.
pub open spec fn fresh() -> SessionView {
    SessionView { established: None, awaiting: false }
}

/// The first step for a request with the given `Authorization` header: an established
/// session forwards whatever the header says; otherwise a token goes to the worker, and a
/// request without one is challenged.
pub open spec fn begin_spec(s: SessionView, authorization: Option<Seq<u8>>) -> (StepView, SessionView) {
    if s.established is Some {
        (StepView::Forward(None), s)
    } else {
        match request_token(authorization) {
            Some(t) => (StepView::Accept(t), SessionView { awaiting: true, ..s }),
            None => (StepView::Respond(challenge(seq![])), s),
        }
    }
}

/// The step for the outcome of the acceptor step that a request handed out.
pub open spec fn complete_spec(s: SessionView, outcome: AcceptOutcome) -> (StepView, SessionView) {
    match outcome {
        AcceptOutcome::ContinueNeeded(t) => (StepView::Respond(challenge(t)), SessionView { awaiting: false, ..s }),
        AcceptOutcome::Accepted(t, p) => (
            StepView::Forward(mutual_auth(t)),
            SessionView { established: Some(p), awaiting: false },
        ),
        AcceptOutcome::Failed => (StepView::Respond(failure()), SessionView { awaiting: false, ..s }),
    }
}

/// Whether a token is small enough to be encoded.
pub open spec fn encodable(outcome: AcceptOutcome) -> bool {
    match outcome {
        AcceptOutcome::ContinueNeeded(t) => t.len() <= isize::MAX,
        AcceptOutcome::Accepted(t, _) => t.len() <= isize::MAX,
        AcceptOutcome::Failed => true,
    }
}

impl<W> Session<W> {
    /// The session of a new connection, with the worker that serves it.
    pub fn new(worker: W) -> (r: Session<W>)
        ensures
            r@ == fresh(),
    {
        Session { phase: AuthPhase::InProgress(worker), awaiting: false }
    }

    /// The principal, once the handshake is complete.
    pub fn principal(&self) -> (r: Option<&String>)
        ensures
            match r {
                Some(p) => self@.established == Some(p@),
                None => self@.established is None,
            },
    {
        match &self.phase {
            AuthPhase::InProgress(_) => None,
            AuthPhase::Established(p) => Some(p),
        }
    }

    /// The worker, while the handshake is in progress.
    pub fn worker(&self) -> (r: Option<&W>)
        ensures
            r is Some <==> self@.established is None,
    {
        match &self.phase {
            AuthPhase::InProgress(w) => Some(w),
            AuthPhase::Established(_) => None,
        }
    }

    /// Whether an acceptor step has been handed out and its outcome is still to come.
    pub fn is_awaiting(&self) -> (r: bool)
        ensures
            r == self@.awaiting,
    {
        self.awaiting
    }

    /// Starts on a request, given the value of its `Authorization` header, if any.
    pub fn begin(&mut self, authorization: Option<&[u8]>) -> (r: Step)
        requires
            !old(self)@.awaiting,
        ensures
            (r@, final(self)@) == begin_spec(
                old(self)@,
                match authorization {
                    Some(a) => Some(a@),
                    None => None,
                },
            ),
    {
        match &self.phase {
            AuthPhase::Established(_) => Step::Forward(None),
            AuthPhase::InProgress(_) => {
                let token = match authorization {
                    Some(a) => parse_authorization_header(a),
                    None => None,
                };
                match token {
                    Some(t) => {
                        self.awaiting = true;
                        Step::Accept(t)
                    },
                    None => {
                        let empty: Vec<u8> = Vec::new();
                        Step::Respond(authorization_request(empty.as_slice()))
                    },
                }
            },
        }
    }

    /// Takes the outcome of the acceptor step that `begin` handed out. On acceptance the
    /// session is established and its worker released.
    pub fn complete(&mut self, outcome: AcceptResult) -> (r: Step)
        requires
            old(self)@.awaiting,
            encodable(outcome@),
        ensures
            (r@, final(self)@) == complete_spec(old(self)@, outcome@),
    {
        self.awaiting = false;
        match outcome {
            AcceptResult::ContinueNeeded(t) => Step::Respond(authorization_request(t.as_slice())),
            AcceptResult::Accepted(t, p) => {
                self.phase = AuthPhase::Established(p);
                Step::Forward(mutual_auth_header(t.as_slice()))
            },
            AcceptResult::Failed(_) => Step::Respond(failure_response()),
        }
    }
}

/// One request on a connection: the value of its `Authorization` header, if any, and the
/// outcome that the worker gives if the request reaches it.
pub struct RequestView {
    pub authorization: Option<Seq<u8>>,
    pub outcome: AcceptOutcome,
}

/// Handling one request from its first step to its last: the last step, the session after
/// it, and whether the worker was invoked.
pub open spec fn request_spec(s: SessionView, req: RequestView) -> (StepView, SessionView, bool) {
    let (step, s1) = begin_spec(s, req.authorization);
    match step {
        StepView::Accept(_) => {
            let (last, s2) = complete_spec(s1, req.outcome);
            (last, s2, true)
        },
        _ => (step, s1, false),
    }
}

/// Handling requests one after the other on one connection: the last step of each, the
/// session after them, and how many times the worker was invoked.
pub open spec fn run_spec(s: SessionView, reqs: Seq<RequestView>) -> (Seq<StepView>, SessionView, nat)
    decreases reqs.len(),
{
    if reqs.len() == 0 {
        (seq![], s, 0)
    } else {
        let (last, s1, invoked) = request_spec(s, reqs[0]);
        let (rest, sn, n) = run_spec(s1, reqs.drop_first());
        (seq![last] + rest, sn, n + if invoked { 1nat } else { 0nat })
    }
}

/// Once a session is established, every request is forwarded with no `WWW-Authenticate`
/// value, the worker is never invoked, and the principal stays as it is.
pub proof fn lemma_established_forwards(s: SessionView, reqs: Seq<RequestView>)
    requires
        s.established is Some,
        !s.awaiting,
    ensures
        forall|i: int| 0 <= i < reqs.len() ==> #[trigger] run_spec(s, reqs).0[i] == StepView::Forward(None),
        run_spec(s, reqs).0.len() == reqs.len(),
        run_spec(s, reqs).1 == s,
        run_spec(s, reqs).2 == 0,
    decreases reqs.len(),
{
    if reqs.len() > 0 {
        lemma_established_forwards(s, reqs.drop_first());
        let steps = run_spec(s, reqs).0;
        assert forall|i: int| 0 <= i < reqs.len() implies #[trigger] steps[i] == StepView::Forward(None) by {
            if i > 0 {
                assert(steps[i] == run_spec(s, reqs.drop_first()).0[i - 1]);
            }
        }
    }
}

/// The worker is invoked at most once for each request: the step that follows an outcome
/// never hands out another token, and no step is left waiting when a request is done.
pub proof fn lemma_one_worker_call_per_request(s: SessionView, reqs: Seq<RequestView>)
    requires
        !s.awaiting,
    ensures
        run_spec(s, reqs).2 <= reqs.len(),
        !run_spec(s, reqs).1.awaiting,
        run_spec(s, reqs).0.len() == reqs.len(),
        forall|i: int| 0 <= i < reqs.len() ==> !(#[trigger] run_spec(s, reqs).0[i] is Accept),
        forall|s1: SessionView, o: AcceptOutcome| !(#[trigger] complete_spec(s1, o).0 is Accept),
    decreases reqs.len(),
{
    if reqs.len() > 0 {
        let s1 = request_spec(s, reqs[0]).1;
        lemma_one_worker_call_per_request(s1, reqs.drop_first());
        let steps = run_spec(s, reqs).0;
        assert forall|i: int| 0 <= i < reqs.len() implies !(#[trigger] steps[i] is Accept) by {
            if i > 0 {
                assert(steps[i] == run_spec(s1, reqs.drop_first()).0[i - 1]);
            }
        }
    }
}

/// The 401 responses of the handler: where the header carries a parameter, it is well-formed
/// base64, and where it carries none, the body says that authorization is missing. This holds
/// for every request whose outcome, if it reaches the worker, is not a rejection: the response
/// to a rejection carries no parameter and says that authentication failed.
pub proof fn lemma_challenge_well_formed(s: SessionView, req: RequestView)
    requires
        !(req.outcome is Failed),
    ensures
        request_spec(s, req).0 matches StepView::Respond(rep) ==> {
            &&& rep.status == 401
            &&& rep.www_authenticate matches Some(v) && match header_param(v) {
                Some(p) => is_b64(p),
                None => rep.body == no_authorization_body(),
            }
        },
{
    let step = request_spec(s, req).0;
    if let StepView::Respond(rep) = step {
        let t: Seq<u8> = if begin_spec(s, req.authorization).0 is Accept {
            req.outcome->ContinueNeeded_0
        } else {
            seq![]
        };
        assert(rep == challenge(t));
        if t.len() == 0 {
            assert(negotiate_value(t).len() == 9);
        } else {
            let v = negotiate_value(t);
            assert(v.subrange(0, 10) =~= negotiate_prefix());
            assert(v.subrange(10, v.len() as int) =~= b64_encode(t));
        }
    }
}

/// A session reaches `Established` only through an acceptance by its own worker: a request
/// that carried a token was answered `Accepted` for that principal. A final handshake leg
/// alone, on a fresh connection, establishes nothing unless its worker accepts it.
pub proof fn lemma_established_only_by_acceptance(s: SessionView, reqs: Seq<RequestView>)
    requires
        s.established is None,
        !s.awaiting,
    ensures
        run_spec(s, reqs).1.established matches Some(u) ==> exists|i: int|
            0 <= i < reqs.len() && request_token(reqs[i].authorization) is Some
                && (#[trigger] reqs[i].outcome matches AcceptOutcome::Accepted(_, p) && p == u),
    decreases reqs.len(),
{
    if reqs.len() > 0 {
        let s1 = request_spec(s, reqs[0]).1;
        let tail = reqs.drop_first();
        if s1.established is Some {
            lemma_established_forwards(s1, tail);
            assert(reqs[0].outcome matches AcceptOutcome::Accepted(_, p) && p == s1.established->0);
        } else {
            lemma_established_only_by_acceptance(s1, tail);
            if run_spec(s, reqs).1.established is Some {
                let u = run_spec(s, reqs).1.established->0;
                let j = choose|j: int|
                    0 <= j < tail.len() && request_token(tail[j].authorization) is Some
                        && (#[trigger] tail[j].outcome matches AcceptOutcome::Accepted(_, p) && p == u);
                assert(reqs[j + 1] == tail[j]);
            }
        }
    }
}

} // verus!
