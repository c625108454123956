use vstd::prelude::*;

use crate::registry::RoomRegistry;
use crate::text;

verus! {

/// The lifecycle of one connection: the transport is accepted and an id
/// minted, the client registers with its room, then messages are read
/// until the connection ends.
pub enum SessionState {
    Connecting,
    Joined,
    Reading,
    Disconnected,
}

/// One inbound frame, as the transport classifies it.
pub enum InboundFrame {
    /// A text payload.
    Text(Vec<u8>),
    /// A binary or otherwise non-text frame.
    NonText,
    /// The transport failed while reading.
    ReadError,
    /// The peer closed the connection.
    Closed,
}

/// What drives a session forward.
pub enum SessionEvent {
    /// The transport was accepted and a client id minted.
    Accepted,
    /// The client was registered with its room and its pump spawned.
    Registered,
    /// The next inbound frame arrived (or the read path ended).
    Inbound(InboundFrame),
}

/// What the surrounding service must do after a step.
pub enum SessionAction {
    /// Register the client with its room and spawn its outbound pump.
    Register,
    /// Fan the carried display line out to the client's room peers and
    /// enqueue it for the room's log.
    Broadcast(Vec<u8>),
    /// Do nothing: the frame was dropped or the event changed no state.
    Ignore,
    /// Remove the client from its room; its pump winds down on its own.
    Leave,
}

/// One step of the session state machine for the client `id`. A text
/// frame is formatted and broadcast and reading goes on; a non-text frame
/// is silently dropped with the connection kept open; a read error or a
/// close disconnects, which removes the client from its room. An event
/// that does not belong to the current state changes nothing.
pub fn session_step(state: SessionState, id: u64, event: SessionEvent) -> (r: (
    SessionState,
    SessionAction,
))
    ensures
        state is Connecting && event is Accepted ==> r == (
            SessionState::Joined,
            SessionAction::Register,
        ),
        state is Joined && event is Registered ==> r == (
            SessionState::Reading,
            SessionAction::Ignore,
        ),
        state is Reading ==> (match event {
            SessionEvent::Inbound(frame) => match frame {
                InboundFrame::Text(msg) => {
                    &&& r.0 is Reading
                    &&& r.1 matches SessionAction::Broadcast(line) && line@
                        == text::format_line_spec(id as nat, msg@)
                },
                InboundFrame::NonText => r == (SessionState::Reading, SessionAction::Ignore),
                InboundFrame::ReadError => r == (SessionState::Disconnected, SessionAction::Leave),
                InboundFrame::Closed => r == (SessionState::Disconnected, SessionAction::Leave),
            },
            _ => r == (SessionState::Reading, SessionAction::Ignore),
        }),
        state is Disconnected ==> r == (SessionState::Disconnected, SessionAction::Ignore),
        state is Connecting && !(event is Accepted) ==> r == (
            SessionState::Connecting,
            SessionAction::Ignore,
        ),
        state is Joined && !(event is Registered) ==> r == (
            SessionState::Joined,
            SessionAction::Ignore,
        ),
{
    match (state, event) {
        (SessionState::Connecting, SessionEvent::Accepted) => (
            SessionState::Joined,
            SessionAction::Register,
        ),
        (SessionState::Joined, SessionEvent::Registered) => (
            SessionState::Reading,
            SessionAction::Ignore,
        ),
        (SessionState::Reading, SessionEvent::Inbound(frame)) => match frame {
            InboundFrame::Text(msg) => {
                let line = text::format_line(id, &msg);
                (SessionState::Reading, SessionAction::Broadcast(line))
            },
            InboundFrame::NonText => (SessionState::Reading, SessionAction::Ignore),
            InboundFrame::ReadError => (SessionState::Disconnected, SessionAction::Leave),
            InboundFrame::Closed => (SessionState::Disconnected, SessionAction::Leave),
        },
        (SessionState::Connecting, _) => (SessionState::Connecting, SessionAction::Ignore),
        (SessionState::Joined, _) => (SessionState::Joined, SessionAction::Ignore),
        (SessionState::Reading, _) => (SessionState::Reading, SessionAction::Ignore),
        (SessionState::Disconnected, _) => (SessionState::Disconnected, SessionAction::Ignore),
    }
}

/// The compute half of handling one inbound text message from `sender`
/// in `room`: the display line that attributes it, and the ids of the
/// members it is fanned out to — every current member of the room except
/// the sender, each exactly once.
pub fn user_message<T>(reg: &RoomRegistry<T>, sender: u64, room: &Vec<u8>, msg: &Vec<u8>) -> (r: (
    Vec<u8>,
    Vec<u64>,
))
    requires
        reg.wf(),
    ensures
        r.0@ == text::format_line_spec(sender as nat, msg@),
        r.1@.no_duplicates(),
        forall|id: u64| r.1@.contains(id) <==> (reg.member(room@, id) && id != sender),
{
    let line = text::format_line(sender, msg);
    let targets = reg.recipients(room, sender);
    (line, targets)
}

} // verus!
