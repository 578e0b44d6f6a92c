use crate::gssapi;
use crate::gssapi::{GSSError, GSS_S_COMPLETE, GSS_S_CONTINUE_NEEDED};
use crate::text::utf8_to_string;
use vstd::prelude::*;
use vstd::utf8::{decode_utf8, valid_utf8};

verus! {

/// A command for the worker that owns an acceptor.
#[derive(Debug)]
pub enum Cmd {
    /// Run one acceptor step on a token from the client.
    Accept(Vec<u8>),
}

/// The worker's reply to a command.
#[derive(Debug)]
pub enum Msg {
    ContinueNeeded(Vec<u8>),
    Accepted(Vec<u8>, String),
    Failed(GSSError),
}

/// The outcome of one acceptor step, as handed to the request handler.
#[derive(Debug)]
pub enum AcceptResult {
    /// Another round trip is needed; the token goes to the client.
    ContinueNeeded(Vec<u8>),
    /// The handshake is complete: the mutual-authentication token (possibly empty) and the
    /// client's principal.
    Accepted(Vec<u8>, String),
    /// The mechanism rejected the handshake.
    Failed(GSSError),
}

/// An acceptor outcome as plain values: tokens as bytes, the principal as characters.
pub enum AcceptOutcome {
    ContinueNeeded(Seq<u8>),
    Accepted(Seq<u8>, Seq<char>),
    Failed,
}

impl View for AcceptResult {
    type V = AcceptOutcome;

    open spec fn view(&self) -> AcceptOutcome {
        match self {
            AcceptResult::ContinueNeeded(t) => AcceptOutcome::ContinueNeeded(t@),
            AcceptResult::Accepted(t, p) => AcceptOutcome::Accepted(t@, p@),
            AcceptResult::Failed(_) => AcceptOutcome::Failed,
        }
    }
}

impl Msg {
    /// The reply for what an acceptor step gave. A step that asks to continue without a
    /// token cannot make progress and fails; so does a completed step whose client name
    /// could not be displayed as UTF-8.
    pub fn from(r: Result<gssapi::AcceptResult, GSSError>) -> (m: Msg)
        ensures
            match r {
                Ok(gssapi::AcceptResult::ContinueNeeded(t)) =>
                    if t@.len() == 0 { m is Failed } else { m == Msg::ContinueNeeded(t) },
                Ok(gssapi::AcceptResult::Complete(t, name)) =>
                    if name is Some && valid_utf8(name->0@) {
                        m matches Msg::Accepted(t2, p) && t2 == t && p@ == decode_utf8(name->0@)
                    } else {
                        m is Failed
                    },
                Err(e) => m == Msg::Failed(e),
            },
    {
        match r {
            Ok(gssapi::AcceptResult::Complete(buf, name)) => {
                let principal = match name {
                    Some(n) => utf8_to_string(n.as_slice()),
                    None => None,
                };
                match principal {
                    Some(p) => Msg::Accepted(buf, p),
                    None => {
                        let e = vec![String::from_str("the client's name could not be displayed as UTF-8")];
                        Msg::Failed(GSSError::new(GSS_S_COMPLETE, 0, e))
                    },
                }
            },
            Ok(gssapi::AcceptResult::ContinueNeeded(buf)) => {
                if buf.len() == 0 {
                    let e = vec![String::from_str("the mechanism asked to continue but gave no token")];
                    Msg::Failed(GSSError::new(GSS_S_CONTINUE_NEEDED, 0, e))
                } else {
                    Msg::ContinueNeeded(buf)
                }
            },
            Err(e) => Msg::Failed(e),
        }
    }

    /// The same outcome, as the request handler takes it.
    pub fn into_result(self) -> (r: AcceptResult)
        ensures
            match self {
                Msg::ContinueNeeded(t) => r == AcceptResult::ContinueNeeded(t),
                Msg::Accepted(t, p) => r == AcceptResult::Accepted(t, p),
                Msg::Failed(e) => r == AcceptResult::Failed(e),
            },
    {
        match self {
            Msg::ContinueNeeded(t) => AcceptResult::ContinueNeeded(t),
            Msg::Accepted(t, p) => AcceptResult::Accepted(t, p),
            Msg::Failed(e) => AcceptResult::Failed(e),
        }
    }
}

} // verus!
