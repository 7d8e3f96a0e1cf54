use remote_ctl::codec::{ClientIdentError, CommandInfo};
use remote_ctl::session::{ClientSession, FrameKind, SessionAction, SessionEvent, SessionState};

/// Drive a fresh session through connect and an accepted handshake.
fn active_session_of(kind: FrameKind) -> ClientSession {
    let mut s = ClientSession::new(kind);
    assert_eq!(s.state, SessionState::Connecting);
    assert_eq!(s.step(SessionEvent::Connected, false), SessionAction::SendHandshake);
    assert_eq!(s.state, SessionState::Handshaking);
    assert_eq!(s.step(SessionEvent::AckReceived(1), false), SessionAction::SendRequest);
    assert_eq!(s.state, SessionState::Active);
    s
}

fn active_session() -> ClientSession {
    active_session_of(FrameKind::LengthPrefixed)
}

#[test]
fn poll_again_on_zero_header() {
    let mut s = active_session();
    let action = s.step(SessionEvent::HeaderReceived(0), false);
    assert_eq!(action, SessionAction::SendRequest);
    assert_eq!(s.state, SessionState::Active);
    assert!(!matches!(action, SessionAction::DispatchPayload(_)));
}

#[test]
fn terminate_header_drains_then_closes() {
    let mut s = active_session();
    assert_eq!(s.step(SessionEvent::HeaderReceived(0xFF), false), SessionAction::SendTermination);
    assert_eq!(s.state, SessionState::Draining);
    assert_eq!(s.step(SessionEvent::Sent, false), SessionAction::CloseStream);
    assert_eq!(s.state, SessionState::Closed);
    assert!(s.is_closed());
}

#[test]
fn cancellation_stops_requests() {
    let mut s = active_session();
    let action = s.step(SessionEvent::Handled, true);
    assert_ne!(action, SessionAction::SendRequest);
    assert_eq!(action, SessionAction::SendTermination);
    assert_eq!(s.state, SessionState::Draining);

    let mut s = active_session();
    let action = s.step(SessionEvent::HeaderReceived(0), true);
    assert_ne!(action, SessionAction::SendRequest);
    assert_eq!(action, SessionAction::SendTermination);
    assert_eq!(s.state, SessionState::Draining);
}

#[test]
fn cancellation_observed_after_handshake() {
    let mut s = ClientSession::new(FrameKind::LengthPrefixed);
    let _ = s.step(SessionEvent::Connected, true);
    let action = s.step(SessionEvent::AckReceived(1), true);
    assert_eq!(action, SessionAction::SendTermination);
    assert_eq!(s.state, SessionState::Draining);
}

#[test]
fn payload_flow() {
    let mut s = active_session();
    assert_eq!(s.step(SessionEvent::HeaderReceived(5), false), SessionAction::ReadPayload(5));
    assert_eq!(s.state, SessionState::Active);
    let bytes = vec![1u8, 2, 3, 4, 5];
    assert_eq!(
        s.step(SessionEvent::PayloadReceived(bytes.clone()), false),
        SessionAction::DispatchPayload(bytes)
    );
    assert_eq!(s.state, SessionState::Active);
    assert_eq!(s.step(SessionEvent::Handled, false), SessionAction::SendRequest);
    assert_eq!(s.state, SessionState::Active);
}

#[test]
fn identity_conflict_is_fatal() {
    let mut s = ClientSession::new(FrameKind::LengthPrefixed);
    let _ = s.step(SessionEvent::Connected, false);
    let action = s.step(SessionEvent::AckReceived(0), false);
    assert_eq!(action, SessionAction::ReportIdentityConflict);
    assert_eq!(s.state, SessionState::Closed);
}

#[test]
fn io_failure_is_connection_loss() {
    let mut s = active_session();
    assert_eq!(s.step(SessionEvent::IoFailed, false), SessionAction::ReportConnectionLoss);
    assert_eq!(s.state, SessionState::Closed);
}

#[test]
fn mismatched_event_escalates() {
    let mut s = ClientSession::new(FrameKind::LengthPrefixed);
    let action = s.step(SessionEvent::Sent, false);
    assert_eq!(action, SessionAction::ReportConnectionLoss);
    assert_eq!(s.state, SessionState::Closed);
}

#[test]
fn fixed_frame_flow() {
    let mut s = active_session_of(FrameKind::FixedFrame);
    assert_eq!(s.step(SessionEvent::HeaderReceived(4), false), SessionAction::ReadFrameTail(4));
    assert_eq!(s.state, SessionState::Active);

    let mut frame = vec![4u8, 0, 0, 0, 0, 0, 0, 0];
    frame.extend_from_slice(&0.5f64.to_le_bytes());
    match s.step(SessionEvent::FrameReceived(frame), false) {
        SessionAction::DispatchCommand(Ok(CommandInfo::Vol(bits))) => {
            assert_eq!(f64::from_bits(bits), 0.5);
        }
        other => panic!("expected a decoded volume command, got {:?}", other),
    }
    assert_eq!(s.state, SessionState::Active);
    assert_eq!(s.step(SessionEvent::Handled, false), SessionAction::SendRequest);

    // An unknown discriminant decodes to a non-fatal error.
    assert_eq!(s.step(SessionEvent::HeaderReceived(5), false), SessionAction::ReadFrameTail(5));
    let frame = vec![5u8; 16];
    assert_eq!(
        s.step(SessionEvent::FrameReceived(frame), false),
        SessionAction::DispatchCommand(Err(ClientIdentError::InvalidByte))
    );
    assert_eq!(s.state, SessionState::Active);
}

#[test]
fn fixed_frame_short_read_is_desync() {
    let mut s = active_session_of(FrameKind::FixedFrame);
    let _ = s.step(SessionEvent::HeaderReceived(4), false);
    let action = s.step(SessionEvent::FrameReceived(vec![4u8, 0, 0]), false);
    assert_eq!(action, SessionAction::ReportConnectionLoss);
    assert_eq!(s.state, SessionState::Closed);
}

#[test]
fn payload_event_on_fixed_frame_session_is_desync() {
    let mut s = active_session_of(FrameKind::FixedFrame);
    let action = s.step(SessionEvent::PayloadReceived(vec![1, 2, 3]), false);
    assert_eq!(action, SessionAction::ReportConnectionLoss);
    assert_eq!(s.state, SessionState::Closed);
}
