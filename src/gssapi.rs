use crate::text::{concat_all, concat_strings, utf8_to_string, views_of};
use vstd::prelude::*;
use vstd::utf8::{decode_utf8, valid_utf8};

verus! {

/// `GSS_S_COMPLETE`: the call completed (RFC 2744).
pub const GSS_S_COMPLETE: u32 = 0;

/// `GSS_S_CONTINUE_NEEDED`: the peer has to send another token (RFC 2744).
pub const GSS_S_CONTINUE_NEEDED: u32 = 1;

/// An error of the mechanism: its major (GSS) and minor (mechanism) status codes, and the
/// message segments that the mechanism's status display gave for both, in order.
#[derive(Debug)]
pub struct GSSError {
    major: u32,
    minor: u32,
    errors: Vec<String>,
}

impl GSSError {
    pub closed spec fn spec_major(&self) -> u32 {
        self.major
    }

    pub closed spec fn spec_minor(&self) -> u32 {
        self.minor
    }

    /// The message segments, each as its characters.
    pub closed spec fn spec_errors(&self) -> Seq<Seq<char>> {
        views_of(self.errors@)
    }

    pub fn new(major: u32, minor: u32, errors: Vec<String>) -> (r: GSSError)
        ensures
            r.spec_major() == major,
            r.spec_minor() == minor,
            r.spec_errors() == views_of(errors@),
    {
        GSSError { major, minor, errors }
    }

    pub fn major(&self) -> (r: u32)
        ensures
            r == self.spec_major(),
    {
        self.major
    }

    pub fn minor(&self) -> (r: u32)
        ensures
            r == self.spec_minor(),
    {
        self.minor
    }

    /// The diagnostic as one text: all message segments, one after the other.
    pub fn message(&self) -> (r: String)
        ensures
            r@ == concat_all(self.spec_errors()),
    {
        concat_strings(&self.errors)
    }
}

/// What one acceptor step produced, with the native buffers copied out: the output token,
/// and on completion the display name of the client, where the mechanism could give it.
#[derive(Debug)]
pub enum AcceptResult {
    ContinueNeeded(Vec<u8>),
    Complete(Vec<u8>, Option<Vec<u8>>),
}

/// Sorts the outcome of an acceptor step by its major status: `None` for any status but
/// `GSS_S_COMPLETE` and `GSS_S_CONTINUE_NEEDED`, which is an error of the mechanism.
pub fn accept_result(major: u32, output_token: Vec<u8>, client_name: Option<Vec<u8>>) -> (r: Option<AcceptResult>)
    ensures
        major == GSS_S_CONTINUE_NEEDED ==> r == Some(AcceptResult::ContinueNeeded(output_token)),
        major == GSS_S_COMPLETE ==> r == Some(AcceptResult::Complete(output_token, client_name)),
        major != GSS_S_COMPLETE && major != GSS_S_CONTINUE_NEEDED ==> r is None,
{
    if major == GSS_S_CONTINUE_NEEDED {
        Some(AcceptResult::ContinueNeeded(output_token))
    } else if major == GSS_S_COMPLETE {
        Some(AcceptResult::Complete(output_token, client_name))
    } else {
        None
    }
}

/// Where the status display stands after one segment.
#[derive(Debug, PartialEq, Eq, Structural)]
pub enum StatusStep {
    /// The mechanism has more segments: display again with the returned context.
    More,
    /// That was the last segment.
    Done,
    /// The display call failed, or gave a segment that is not UTF-8.
    Failed,
}

/// Takes one segment of the mechanism's status display: the major status of the display
/// call, the segment's bytes, and the message context that the call left behind.
pub fn display_status_step(messages: &mut Vec<String>, major: u32, segment: &[u8], message_context: u32) -> (r: StatusStep)
    ensures
        major != GSS_S_COMPLETE || !valid_utf8(segment@) ==> r == StatusStep::Failed && final(messages)@ == old(messages)@,
        major == GSS_S_COMPLETE && valid_utf8(segment@) ==> {
            &&& views_of(final(messages)@) == views_of(old(messages)@).push(decode_utf8(segment@))
            &&& r == if message_context == 0 { StatusStep::Done } else { StatusStep::More }
        },
{
    if major != GSS_S_COMPLETE {
        return StatusStep::Failed;
    }
    match utf8_to_string(segment) {
        None => StatusStep::Failed,
        Some(s) => {
            let ghost before = messages@;
            messages.push(s);
            assert(views_of(messages@) =~= views_of(before).push(decode_utf8(segment@)));
            if message_context == 0 {
                StatusStep::Done
            } else {
                StatusStep::More
            }
        },
    }
}

} // verus!
