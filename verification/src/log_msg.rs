//! Typed log events and their byte-cost accounting.

use vstd::prelude::*;
use vstd::utf8::encode_utf8;

verus! {

/// Byte-cost overhead charged to each text-carrying event.
pub const TEXT_EVENT_OVERHEAD: usize = 4;

/// Byte cost charged for the terminal `Finished` sentinel.
pub const FINISHED_COST: usize = 8;

/// Mathematical value of a log event: payloads as character sequences.
pub enum MsgView {
    Stdout(Seq<char>),
    Stderr(Seq<char>),
    JsonPatch(Seq<char>),
    SessionId(Seq<char>),
    Finished,
}

/// Typed log event observable on a session's stream.
#[derive(Debug)]
pub enum LogMsg {
    /// UTF-8 text chunk from the agent's standard output.
    Stdout(String),
    /// UTF-8 text chunk from the agent's standard error.
    Stderr(String),
    /// Serialized RFC 6902 patch describing an incremental state delta.
    JsonPatch(String),
    /// The agent's own session identifier, announced once per spawn.
    SessionId(String),
    /// Terminal sentinel: no further events follow on this stream.
    Finished,
}

impl View for LogMsg {
    type V = MsgView;

    open spec fn view(&self) -> MsgView {
        match self {
            LogMsg::Stdout(s) => MsgView::Stdout(s@),
            LogMsg::Stderr(s) => MsgView::Stderr(s@),
            LogMsg::JsonPatch(s) => MsgView::JsonPatch(s@),
            LogMsg::SessionId(s) => MsgView::SessionId(s@),
            LogMsg::Finished => MsgView::Finished,
        }
    }
}

/// Approximate byte cost of an event, charged against the history budget:
/// the UTF-8 length of the payload plus a small constant for text events,
/// the serialized size for a patch, and a constant for `Finished`.
pub open spec fn cost(m: MsgView) -> nat {
    match m {
        MsgView::Stdout(s) => (encode_utf8(s).len() + TEXT_EVENT_OVERHEAD) as nat,
        MsgView::Stderr(s) => (encode_utf8(s).len() + TEXT_EVENT_OVERHEAD) as nat,
        MsgView::JsonPatch(s) => encode_utf8(s).len(),
        MsgView::SessionId(s) => (encode_utf8(s).len() + TEXT_EVENT_OVERHEAD) as nat,
        MsgView::Finished => FINISHED_COST as nat,
    }
}

impl LogMsg {
    /// Approximate size in bytes, saturating at the machine limit.
    pub fn approx_bytes(&self) -> (r: usize)
        ensures
            cost(self@) <= usize::MAX ==> r == cost(self@),
    {
        match self {
            LogMsg::Stdout(s) => s.as_str().len().saturating_add(TEXT_EVENT_OVERHEAD),
            LogMsg::Stderr(s) => s.as_str().len().saturating_add(TEXT_EVENT_OVERHEAD),
            LogMsg::JsonPatch(s) => s.as_str().len(),
            LogMsg::SessionId(s) => s.as_str().len().saturating_add(TEXT_EVENT_OVERHEAD),
            LogMsg::Finished => FINISHED_COST,
        }
    }
}

impl Clone for LogMsg {
    fn clone(&self) -> (r: Self)
        ensures
            r@ == self@,
    {
        match self {
            LogMsg::Stdout(s) => LogMsg::Stdout(s.clone()),
            LogMsg::Stderr(s) => LogMsg::Stderr(s.clone()),
            LogMsg::JsonPatch(s) => LogMsg::JsonPatch(s.clone()),
            LogMsg::SessionId(s) => LogMsg::SessionId(s.clone()),
            LogMsg::Finished => LogMsg::Finished,
        }
    }
}

impl PartialEq for LogMsg {
    fn eq(&self, other: &Self) -> (r: bool) {
        match self {
            LogMsg::Stdout(a) => match other {
                LogMsg::Stdout(b) => *a == *b,
                _ => false,
            },
            LogMsg::Stderr(a) => match other {
                LogMsg::Stderr(b) => *a == *b,
                _ => false,
            },
            LogMsg::JsonPatch(a) => match other {
                LogMsg::JsonPatch(b) => *a == *b,
                _ => false,
            },
            LogMsg::SessionId(a) => match other {
                LogMsg::SessionId(b) => *a == *b,
                _ => false,
            },
            LogMsg::Finished => match other {
                LogMsg::Finished => true,
                _ => false,
            },
        }
    }
}

impl vstd::std_specs::cmp::PartialEqSpecImpl for LogMsg {
    open spec fn obeys_eq_spec() -> bool {
        true
    }

    open spec fn eq_spec(&self, other: &Self) -> bool {
        self@ == other@
    }
}

/// The stderr event recorded when a forwarded source stream yields an
/// error: the error's text behind a fixed marker.
pub fn stream_error_event(detail: &str) -> (r: LogMsg)
    ensures
        r@ == MsgView::Stderr(("stream error: "@) + detail@),
{
    LogMsg::Stderr(
        <String as vstd::string::StringExecFns>::from_str("stream error: ").concat(detail),
    )
}

} // verus!
