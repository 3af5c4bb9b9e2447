//! The control-plane synchronizer: frame coding for the state wire, the
//! token-cache decision, and the streaming-then-polling loop as a state
//! machine from connection events to the next phase and action.  The
//! network exchanges themselves run outside the verified core and feed
//! events back in; a frame is delivered only when it decodes whole.

use vstd::prelude::*;

use crate::plugins::{b64std_decode, b64std_decode_of, b64std_encode, b64std_encode_of};

verus! {

/// Encode a state payload for the wire.
pub fn custom_encrypt(data: &[u8]) -> (r: Vec<u8>)
    ensures
        r@ == crate::plugins::utf8_bytes_of(b64std_encode_of(data@)),
{
    let s = b64std_encode(data);
    crate::plugins::string_to_bytes(s.as_str())
}

/// Decode one wire frame: the base64 payload bytes, or nothing on invalid
/// text — a snapshot is delivered whole or not at all.
pub fn custom_decrypt(data: &str) -> (r: Option<Vec<u8>>)
    ensures
        match r {
            Some(b) => b64std_decode_of(data@) == Some(b@),
            None => (b64std_decode_of(data@) is None),
        },
{
    b64std_decode(data)
}

/// Where the synchronizer stands.
#[derive(Debug, Clone, Copy, PartialEq, Eq, Structural)]
pub enum SyncPhase {
    /// About to attempt the streaming connection.
    TryStream,
    /// Reading frames from an established stream.
    Streaming,
    /// Polling the state endpoint.
    Polling,
    /// Waiting one second before re-attempting the stream.
    WaitRestream,
}

/// What happened on the wire.
#[derive(Debug, Clone, Copy, PartialEq, Eq, Structural)]
pub enum SyncEvent {
    StreamConnected,
    StreamFailed,
    FrameReceived,
    StreamEnded,
    PollCompleted,
    PollFailed,
    SleepElapsed,
}

/// What the loop does next; the two waits are one second and the
/// five-second polling cadence.
#[derive(Debug, Clone, Copy, PartialEq, Eq, Structural)]
pub enum SyncAction {
    ConnectStream,
    ReadFrame,
    DeliverAndRead,
    Poll,
    SleepOne,
    SleepPoll,
}

/// The transition function of the synchronizer loop: a streaming attempt
/// that fails falls back to polling; frames are delivered and reading
/// continues; a dropped stream waits one second and re-attempts the stream;
/// a finished polling iteration waits the polling cadence before the stream
/// is re-attempted, so polling never runs faster than that cadence; the
/// loop never terminates.
pub open spec fn sync_next(phase: SyncPhase, event: SyncEvent) -> (SyncPhase, SyncAction) {
    match (phase, event) {
        (SyncPhase::TryStream, SyncEvent::StreamConnected) => (
            SyncPhase::Streaming,
            SyncAction::ReadFrame,
        ),
        (SyncPhase::TryStream, SyncEvent::StreamFailed) => (SyncPhase::Polling, SyncAction::Poll),
        (SyncPhase::Streaming, SyncEvent::FrameReceived) => (
            SyncPhase::Streaming,
            SyncAction::DeliverAndRead,
        ),
        (SyncPhase::Streaming, SyncEvent::StreamEnded) => (
            SyncPhase::WaitRestream,
            SyncAction::SleepOne,
        ),
        (SyncPhase::Streaming, SyncEvent::StreamFailed) => (
            SyncPhase::WaitRestream,
            SyncAction::SleepOne,
        ),
        (SyncPhase::Polling, SyncEvent::PollCompleted) => (
            SyncPhase::WaitRestream,
            SyncAction::SleepPoll,
        ),
        (SyncPhase::Polling, SyncEvent::PollFailed) => (
            SyncPhase::WaitRestream,
            SyncAction::SleepPoll,
        ),
        (SyncPhase::WaitRestream, SyncEvent::SleepElapsed) => (
            SyncPhase::TryStream,
            SyncAction::ConnectStream,
        ),
        _ => (phase, SyncAction::SleepPoll),
    }
}

/// One step of the synchronizer loop.
pub fn sync_step(phase: SyncPhase, event: SyncEvent) -> (r: (SyncPhase, SyncAction))
    ensures
        r == sync_next(phase, event),
{
    match (phase, event) {
        (SyncPhase::TryStream, SyncEvent::StreamConnected) => (
            SyncPhase::Streaming,
            SyncAction::ReadFrame,
        ),
        (SyncPhase::TryStream, SyncEvent::StreamFailed) => (SyncPhase::Polling, SyncAction::Poll),
        (SyncPhase::Streaming, SyncEvent::FrameReceived) => (
            SyncPhase::Streaming,
            SyncAction::DeliverAndRead,
        ),
        (SyncPhase::Streaming, SyncEvent::StreamEnded) => (
            SyncPhase::WaitRestream,
            SyncAction::SleepOne,
        ),
        (SyncPhase::Streaming, SyncEvent::StreamFailed) => (
            SyncPhase::WaitRestream,
            SyncAction::SleepOne,
        ),
        (SyncPhase::Polling, SyncEvent::PollCompleted) => (
            SyncPhase::WaitRestream,
            SyncAction::SleepPoll,
        ),
        (SyncPhase::Polling, SyncEvent::PollFailed) => (
            SyncPhase::WaitRestream,
            SyncAction::SleepPoll,
        ),
        (SyncPhase::WaitRestream, SyncEvent::SleepElapsed) => (
            SyncPhase::TryStream,
            SyncAction::ConnectStream,
        ),
        _ => (phase, SyncAction::SleepPoll),
    }
}

/// Whether a polling iteration may reuse the cached bearer token or must
/// fetch a fresh one: a cached token is reused best-effort; none forces a
/// fetch.
pub fn token_decision(cached: &Option<String>) -> (r: bool)
    ensures
        r == (cached is Some),
{
    match cached {
        Some(_) => true,
        None => false,
    }
}

} // verus!
