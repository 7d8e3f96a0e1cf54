//! The client session state machine: `Connecting -> Handshaking -> Active
//! -> Draining -> Closed`.
//!
//! The session owns no stream; the caller performs each returned action
//! (open, write, read, dispatch, close) and feeds the outcome back as the
//! next event, together with the current value of the cooperative
//! cancellation flag.  The flag is consulted exactly at the checkpoints
//! before a new "request next command" byte would be written; once it is
//! observed set, the machine drains (writes the termination byte) and
//! closes instead of issuing another request.  Any I/O failure, and any
//! event that does not fit the state (a framing desync), escalates to
//! connection loss: the stream closes and the caller may reconnect.

use vstd::prelude::*;
use crate::codec::{
    classify_header, spec_classify_header, spec_decode_frame, ClientIdentError, CommandInfo,
    ResponseHeader, ACK_ACCEPTED, NO_COMMAND_HEADER, TERMINATE_HEADER,
};

verus! {

/// Which of the two wire shapes the server speaks: a one-byte length before
/// a JSON payload, or 16-byte fixed frames whose first byte doubles as the
/// response header.
#[derive(Debug, Clone, Copy, PartialEq, Eq, Structural)]
pub enum FrameKind {
    LengthPrefixed,
    FixedFrame,
}

/// Where the session stands.
#[derive(Debug, Clone, Copy, PartialEq, Eq, Structural)]
pub enum SessionState {
    /// Waiting for the caller to open the byte-stream connection.
    Connecting,
    /// The identity message is written; waiting for the acknowledgement byte.
    Handshaking,
    /// Requesting and executing commands.
    Active,
    /// Told to stop; the termination byte is being written.
    Draining,
    /// Terminal: the stream is released.
    Closed,
}

/// What the caller reports back to the session.
#[derive(Debug, PartialEq)]
pub enum SessionEvent {
    /// The connection is open.
    Connected,
    /// The handshake acknowledgement byte arrived.
    AckReceived(u8),
    /// The one-byte response header arrived.
    HeaderReceived(u8),
    /// The announced payload bytes arrived.
    PayloadReceived(Vec<u8>),
    /// A whole 16-byte fixed frame arrived: the header byte followed by the
    /// fifteen bytes read after it.
    FrameReceived(Vec<u8>),
    /// A dispatch (or a locally reported dispatch error) finished.
    Handled,
    /// A pending write completed.
    Sent,
    /// A read or write failed: the connection is lost.
    IoFailed,
}

/// What the caller must do next.
#[derive(Debug, PartialEq)]
pub enum SessionAction {
    /// Write the identity handshake message, then read one ack byte.
    SendHandshake,
    /// Write the request byte, then read one header byte.
    SendRequest,
    /// Read this many payload bytes.
    ReadPayload(u8),
    /// Read the fifteen remaining bytes of the fixed frame whose
    /// discriminant this is.
    ReadFrameTail(u8),
    /// Decode the payload and execute the command; a decode or dispatch
    /// error is reported locally and is not fatal.
    DispatchPayload(Vec<u8>),
    /// Execute the decoded fixed-frame command, or report its decode error
    /// locally; neither is fatal.
    DispatchCommand(Result<CommandInfo, ClientIdentError>),
    /// Write the termination byte.
    SendTermination,
    /// Release the stream.
    CloseStream,
    /// Fatal session error: the host role is already taken.
    ReportIdentityConflict,
    /// Fatal session error: the connection failed or desynchronized.
    ReportConnectionLoss,
}

/// The transition relation of the session: from a state, an event and the
/// cancellation flag to the next state and the action to perform.
pub open spec fn spec_step(s: SessionState, kind: FrameKind, e: SessionEvent, cancelled: bool) -> (
    SessionState,
    SessionAction,
) {
    match (s, e) {
        (SessionState::Closed, _) => (SessionState::Closed, SessionAction::CloseStream),
        (_, SessionEvent::IoFailed) => (SessionState::Closed, SessionAction::ReportConnectionLoss),
        (SessionState::Connecting, SessionEvent::Connected) => (
            SessionState::Handshaking,
            SessionAction::SendHandshake,
        ),
        (SessionState::Handshaking, SessionEvent::AckReceived(b)) => {
            if b == ACK_ACCEPTED {
                spec_checkpoint(cancelled)
            } else {
                (SessionState::Closed, SessionAction::ReportIdentityConflict)
            }
        },
        (SessionState::Active, SessionEvent::HeaderReceived(b)) => {
            match spec_classify_header(b) {
                ResponseHeader::NoCommand => spec_checkpoint(cancelled),
                ResponseHeader::Terminate => (SessionState::Draining, SessionAction::SendTermination),
                ResponseHeader::Payload(n) => {
                    if kind == FrameKind::LengthPrefixed {
                        (SessionState::Active, SessionAction::ReadPayload(n))
                    } else {
                        (SessionState::Active, SessionAction::ReadFrameTail(n))
                    }
                },
            }
        },
        (SessionState::Active, SessionEvent::PayloadReceived(p)) => {
            if kind == FrameKind::LengthPrefixed {
                (SessionState::Active, SessionAction::DispatchPayload(p))
            } else {
                (SessionState::Closed, SessionAction::ReportConnectionLoss)
            }
        },
        (SessionState::Active, SessionEvent::FrameReceived(f)) => {
            if kind == FrameKind::FixedFrame && f.len() == 16 {
                (
                    SessionState::Active,
                    SessionAction::DispatchCommand(spec_decode_frame(f@)),
                )
            } else {
                (SessionState::Closed, SessionAction::ReportConnectionLoss)
            }
        },
        (SessionState::Active, SessionEvent::Handled) => spec_checkpoint(cancelled),
        (SessionState::Draining, SessionEvent::Sent) => (
            SessionState::Closed,
            SessionAction::CloseStream,
        ),
        _ => (SessionState::Closed, SessionAction::ReportConnectionLoss),
    }
}

/// The cancellation checkpoint before each new request: drain if the flag
/// is set, otherwise request the next command.
pub open spec fn spec_checkpoint(cancelled: bool) -> (SessionState, SessionAction) {
    if cancelled {
        (SessionState::Draining, SessionAction::SendTermination)
    } else {
        (SessionState::Active, SessionAction::SendRequest)
    }
}

/// One client session over one connection.
#[derive(Debug, Clone, Copy, PartialEq, Eq, Structural)]
pub struct ClientSession {
    pub state: SessionState,
    pub kind: FrameKind,
}

impl ClientSession {
    /// A fresh session, waiting for its connection.
    pub fn new(kind: FrameKind) -> (r: ClientSession)
        ensures
            r.state == SessionState::Connecting,
            r.kind == kind,
    {
        ClientSession { state: SessionState::Connecting, kind }
    }

    /// The session has released its stream and is done.
    pub fn is_closed(&self) -> (r: bool)
        ensures
            r == (self.state == SessionState::Closed),
    {
        match self.state {
            SessionState::Closed => true,
            _ => false,
        }
    }

    /// Advance the session by one event, reading the cancellation flag at
    /// this checkpoint, and return the next action to perform.
    pub fn step(&mut self, event: SessionEvent, cancelled: bool) -> (action: SessionAction)
        ensures
            (final(self).state, action) == spec_step(
                old(self).state,
                old(self).kind,
                event,
                cancelled,
            ),
            final(self).kind == old(self).kind,
    {
        let (next, action): (SessionState, SessionAction) = match (self.state, event) {
            (SessionState::Closed, _) => (SessionState::Closed, SessionAction::CloseStream),
            (_, SessionEvent::IoFailed) => (
                SessionState::Closed,
                SessionAction::ReportConnectionLoss,
            ),
            (SessionState::Connecting, SessionEvent::Connected) => (
                SessionState::Handshaking,
                SessionAction::SendHandshake,
            ),
            (SessionState::Handshaking, SessionEvent::AckReceived(b)) => {
                if b == ACK_ACCEPTED {
                    checkpoint(cancelled)
                } else {
                    (SessionState::Closed, SessionAction::ReportIdentityConflict)
                }
            },
            (SessionState::Active, SessionEvent::HeaderReceived(b)) => {
                match classify_header(b) {
                    ResponseHeader::NoCommand => checkpoint(cancelled),
                    ResponseHeader::Terminate => (
                        SessionState::Draining,
                        SessionAction::SendTermination,
                    ),
                    ResponseHeader::Payload(n) => {
                        if matches!(self.kind, FrameKind::LengthPrefixed) {
                            (SessionState::Active, SessionAction::ReadPayload(n))
                        } else {
                            (SessionState::Active, SessionAction::ReadFrameTail(n))
                        }
                    },
                }
            },
            (SessionState::Active, SessionEvent::PayloadReceived(p)) => {
                if matches!(self.kind, FrameKind::LengthPrefixed) {
                    (SessionState::Active, SessionAction::DispatchPayload(p))
                } else {
                    (SessionState::Closed, SessionAction::ReportConnectionLoss)
                }
            },
            (SessionState::Active, SessionEvent::FrameReceived(f)) => {
                if matches!(self.kind, FrameKind::FixedFrame) && f.len() == 16 {
                    let frame: [u8; 16] = [
                        f[0],
                        f[1],
                        f[2],
                        f[3],
                        f[4],
                        f[5],
                        f[6],
                        f[7],
                        f[8],
                        f[9],
                        f[10],
                        f[11],
                        f[12],
                        f[13],
                        f[14],
                        f[15],
                    ];
                    proof {
                        assert(frame@ =~= f@);
                    }
                    (
                        SessionState::Active,
                        SessionAction::DispatchCommand(CommandInfo::try_from_frame(&frame)),
                    )
                } else {
                    (SessionState::Closed, SessionAction::ReportConnectionLoss)
                }
            },
            (SessionState::Active, SessionEvent::Handled) => checkpoint(cancelled),
            (SessionState::Draining, SessionEvent::Sent) => (
                SessionState::Closed,
                SessionAction::CloseStream,
            ),
            _ => (SessionState::Closed, SessionAction::ReportConnectionLoss),
        };
        self.state = next;
        action
    }
}

/// The executable cancellation checkpoint.
fn checkpoint(cancelled: bool) -> (r: (SessionState, SessionAction))
    ensures
        r == spec_checkpoint(cancelled),
{
    if cancelled {
        (SessionState::Draining, SessionAction::SendTermination)
    } else {
        (SessionState::Active, SessionAction::SendRequest)
    }
}

/// Law: a "no command available" header makes the active session issue
/// another request without dispatching anything.
pub proof fn lemma_poll_again(kind: FrameKind)
    ensures
        spec_step(
            SessionState::Active,
            kind,
            SessionEvent::HeaderReceived(NO_COMMAND_HEADER),
            false,
        ) == (SessionState::Active, SessionAction::SendRequest),
{
}

/// Law: a termination header drains the active session — the termination
/// byte is written — and the completed write closes it.
pub proof fn lemma_terminate_drains(kind: FrameKind, cancelled: bool)
    ensures
        spec_step(
            SessionState::Active,
            kind,
            SessionEvent::HeaderReceived(TERMINATE_HEADER),
            cancelled,
        ) == (SessionState::Draining, SessionAction::SendTermination),
        spec_step(SessionState::Draining, kind, SessionEvent::Sent, cancelled) == (
            SessionState::Closed,
            SessionAction::CloseStream,
        ),
{
}

/// Law: an I/O failure leaves the session closed, whatever state it was
/// in — connection loss is never retried in place.
pub proof fn lemma_io_failure_closes(s: SessionState, kind: FrameKind, cancelled: bool)
    ensures
        spec_step(s, kind, SessionEvent::IoFailed, cancelled).0 == SessionState::Closed,
{
}

/// Law: once the cancellation flag is observed set, no transition of any
/// state issues another "request next command" write.
pub proof fn lemma_cancellation_stops_requests(s: SessionState, kind: FrameKind, e: SessionEvent)
    ensures
        spec_step(s, kind, e, true).1 != SessionAction::SendRequest,
{
}

} // verus!
