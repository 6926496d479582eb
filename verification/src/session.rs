//! The per-connection command dispatcher as a state machine: how an
//! inbound frame is classified, what reply each command owes, and when
//! the session closes.
//!
//! The transport itself (receiving frames, the sampling pause, sending
//! replies) lives outside the library; it reports what happened as a
//! `SessionEvent` and this module decides the next state.

use vstd::prelude::*;
use crate::cpu_identity::CpuIdentity;
use crate::json::{cpu_info_json, spec_cpu_info_json};
use crate::text::{ascii_bytes, bytes_eq, bytes_of, spec_trim, trim_bytes};

verus! {

/// What a trimmed text frame asks for.
#[derive(Clone, Copy, PartialEq, Eq, Structural, Debug)]
pub enum Command {
    /// The full metrics snapshot.
    GetMetrics,
    /// The static CPU identity.
    GetCpuInfo,
    /// Anything else: ignored, the session stays open.
    Unknown,
}

/// The lifecycle of one upgraded connection.
#[derive(Clone, Copy, PartialEq, Eq, Structural, Debug)]
pub enum SessionState {
    /// Awaiting the next command.
    Open,
    /// Terminal: a transport failure or close ended the session.
    Closed,
}

/// What the transport reports after one inbound frame was processed.
#[derive(Clone, Copy, PartialEq, Eq, Structural, Debug)]
pub enum SessionEvent {
    /// Receiving from the connection failed.
    ReceiveError,
    /// A non-text frame arrived; it is ignored.
    NonText,
    /// A text frame was handled and no reply was owed or possible.
    HandledNoReply,
    /// A reply frame was sent successfully.
    ReplySent,
    /// Sending the reply failed.
    SendFailed,
}

/// The command a text frame denotes, after trimming.
pub open spec fn spec_classify(text: Seq<u8>) -> Command {
    if spec_trim(text) == bytes_of("get_metrics"@) {
        Command::GetMetrics
    } else if spec_trim(text) == bytes_of("get_cpu_info"@) {
        Command::GetCpuInfo
    } else {
        Command::Unknown
    }
}

/// Classifies a text frame.
pub fn classify_command(text: &[u8]) -> (c: Command)
    ensures
        c == spec_classify(text@),
{
    proof {
        reveal_strlit("get_metrics");
        reveal_strlit("get_cpu_info");
    }
    let trimmed = trim_bytes(text);
    let key_metrics = ascii_bytes("get_metrics");
    if bytes_eq(trimmed.as_slice(), key_metrics.as_slice()) {
        return Command::GetMetrics;
    }
    let key_info = ascii_bytes("get_cpu_info");
    if bytes_eq(trimmed.as_slice(), key_info.as_slice()) {
        return Command::GetCpuInfo;
    }
    Command::Unknown
}

/// The state after an event: a receive or send failure closes the
/// session, everything else leaves it open; a closed session stays
/// closed.
pub open spec fn spec_next_state(s: SessionState, e: SessionEvent) -> SessionState {
    match s {
        SessionState::Closed => SessionState::Closed,
        SessionState::Open => match e {
            SessionEvent::ReceiveError => SessionState::Closed,
            SessionEvent::SendFailed => SessionState::Closed,
            SessionEvent::NonText => SessionState::Open,
            SessionEvent::HandledNoReply => SessionState::Open,
            SessionEvent::ReplySent => SessionState::Open,
        },
    }
}

/// Advances the session state machine by one event.
pub fn next_state(s: SessionState, e: SessionEvent) -> (r: SessionState)
    ensures
        r == spec_next_state(s, e),
{
    match s {
        SessionState::Closed => SessionState::Closed,
        SessionState::Open => match e {
            SessionEvent::ReceiveError => SessionState::Closed,
            SessionEvent::SendFailed => SessionState::Closed,
            _ => SessionState::Open,
        },
    }
}

/// The reply owed for an identity request: the identity payload when
/// the read succeeded, and no frame at all when it failed — the client
/// is not told, and the session stays open.
pub fn cpu_info_reply(ci: &Option<CpuIdentity>) -> (r: Option<Vec<u8>>)
    ensures
        match ci {
            Some(c) => match r {
                Some(v) => v@ == spec_cpu_info_json(
                    c.cpu_count as int,
                    c.cpu_mhz@,
                    c.model_name@,
                    c.bogomips@,
                    c.architecture@,
                    c.cache_info@,
                ),
                None => false,
            },
            None => r is None,
        },
{
    match ci {
        Some(c) => Some(cpu_info_json(c)),
        None => None,
    }
}

/// A text frame that is no known command draws no reply, and the
/// session remains open for later, valid commands.
pub proof fn lemma_unknown_command_ignored(text: Seq<u8>)
    requires
        spec_classify(text) == Command::Unknown,
    ensures
        spec_next_state(SessionState::Open, SessionEvent::HandledNoReply) == SessionState::Open,
        forall|e: SessionEvent|
            e != SessionEvent::ReceiveError && e != SessionEvent::SendFailed ==> spec_next_state(
                SessionState::Open,
                e,
            ) == SessionState::Open,
{
}

/// An identity request whose source read failed sends nothing and
/// leaves the session open: the handled-without-reply event keeps the
/// open state.
pub proof fn lemma_cpu_info_unavailable_silent(text: Seq<u8>)
    requires
        spec_classify(text) == Command::GetCpuInfo,
    ensures
        spec_next_state(SessionState::Open, SessionEvent::HandledNoReply) == SessionState::Open,
{
}

} // verus!
