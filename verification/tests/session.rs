use deskremote::codec::Packet;
use deskremote::hub::Received;
use deskremote::session::frame;
use deskremote::session::session_step;
use deskremote::session::SessionAction;
use deskremote::session::SessionState;

#[test]
fn frame_shape_for_mouse_move() {
    // A 17-byte MouseMove payload produces exactly 0x00 0x00 0x00 0x11
    // followed by the 17 encoded bytes.
    let payload = Packet::MouseMove { x_bits: (1.0f64).to_bits(), y_bits: (2.0f64).to_bits() }
        .to_bytes();
    assert_eq!(payload.len(), 17);
    let framed = frame(&payload);
    assert_eq!(framed.len(), 21);
    assert_eq!(&framed[..4], &[0x00, 0x00, 0x00, 0x11]);
    assert_eq!(&framed[4..], &payload[..]);
}

#[test]
fn frame_length_is_big_endian() {
    let payload = vec![0u8; 0x0102];
    let framed = frame(&payload);
    assert_eq!(&framed[..4], &[0x00, 0x00, 0x01, 0x02]);
    assert_eq!(framed.len(), 4 + 0x0102);
}

#[test]
fn frame_of_empty_payload() {
    let framed = frame(&Vec::new());
    assert_eq!(framed, vec![0, 0, 0, 0]);
}

#[test]
fn streaming_bytes_writes_one_frame() {
    let payload = Packet::KeyDown { code: 5 }.to_bytes();
    let (state, action) = session_step(SessionState::Streaming, Received::Bytes(payload.clone()));
    assert_eq!(state, SessionState::Streaming);
    match action {
        SessionAction::Write(f) => {
            assert_eq!(&f[..4], &[0, 0, 0, 2]);
            assert_eq!(&f[4..], &payload[..]);
        }
        other => panic!("expected a write, got {:?}", other),
    }
}

#[test]
fn streaming_lag_is_silent_and_continues() {
    let (state, action) = session_step(SessionState::Streaming, Received::Lagged(72));
    assert_eq!(state, SessionState::Streaming);
    assert!(matches!(action, SessionAction::Skip));
}

#[test]
fn streaming_empty_waits() {
    let (state, action) = session_step(SessionState::Streaming, Received::Empty);
    assert_eq!(state, SessionState::Streaming);
    assert!(matches!(action, SessionAction::Wait));
}

#[test]
fn hub_closure_terminates_session() {
    let (state, action) = session_step(SessionState::Streaming, Received::Closed);
    assert_eq!(state, SessionState::Terminated);
    assert!(matches!(action, SessionAction::Stop));
}

#[test]
fn terminated_is_terminal() {
    for event in [
        Received::Bytes(vec![1, 5]),
        Received::Lagged(1),
        Received::Empty,
        Received::Closed,
    ] {
        let (state, action) = session_step(SessionState::Terminated, event);
        assert_eq!(state, SessionState::Terminated);
        assert!(matches!(action, SessionAction::Stop));
    }
}
