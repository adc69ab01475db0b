use fpga_link::frame::prepare_transfers;
use fpga_link::session::{Action, Event, LinkError, Operand, Session, PACE_MILLIS};

const MESSAGE: u64 = 0x4BBD010363A955C0;
const KEY: u64 = 0xA1B2C3D4E5F61234;
const RESPONSE: [u8; 8] = [0x12, 0x34, 0x56, 0x78, 0x9A, 0xBC, 0xDE, 0xF0];

/// Drives a session against a well-behaved channel, recording every action
/// up to and including the first read; the read is answered by `on_read`.
fn drive(message: u64, key: u64, on_read: Event) -> (Vec<Action>, Action) {
    let mut session = Session::new(message, key);
    let mut actions = Vec::new();
    let mut action = session.pending();
    loop {
        actions.push(action);
        let event = match action {
            Action::Send { .. } => Event::Sent,
            Action::Pause { .. } => Event::Paused,
            Action::Read { .. } => on_read,
            Action::Finish { .. } | Action::Abort { .. } => return (actions, action),
        };
        assert!(session.expects(&event));
        action = session.step(event);
    }
}

#[test]
fn full_session_returns_ciphertext() {
    let (_, last) = drive(MESSAGE, KEY, Event::Received { response: RESPONSE });
    assert_eq!(last, Action::Finish { ciphertext: 0x123456789ABCDEF0 });
}

#[test]
fn session_sends_twenty_bytes_before_read() {
    for (m, k) in [(MESSAGE, KEY), (0, 0), (u64::MAX, 1)] {
        let (actions, _) = drive(m, k, Event::Received { response: RESPONSE });
        let read_at = actions
            .iter()
            .position(|a| matches!(a, Action::Read { .. }))
            .unwrap();
        assert_eq!(read_at, 40);
        assert_eq!(actions[read_at], Action::Read { len: 8 });
        let sent: Vec<u8> = actions[..read_at]
            .iter()
            .filter_map(|a| match a {
                Action::Send { byte, .. } => Some(*byte),
                _ => None,
            })
            .collect();
        let mut wire = prepare_transfers(m).to_vec();
        wire.extend_from_slice(&prepare_transfers(k));
        assert_eq!(sent.len(), 20);
        assert_eq!(sent, wire);
    }
}

#[test]
fn sends_are_labelled_by_operand_and_index() {
    let (actions, _) = drive(MESSAGE, KEY, Event::Received { response: RESPONSE });
    assert_eq!(
        actions[0],
        Action::Send { operand: Operand::Message, index: 0, byte: 0x25 }
    );
    assert_eq!(
        actions[18],
        Action::Send { operand: Operand::Message, index: 9, byte: 0x80 }
    );
    assert_eq!(
        actions[20],
        Action::Send { operand: Operand::Key, index: 0, byte: 0x50 }
    );
    assert_eq!(
        actions[38],
        Action::Send { operand: Operand::Key, index: 9, byte: 0x80 }
    );
}

#[test]
fn every_send_is_followed_by_a_pause() {
    let (actions, _) = drive(MESSAGE, KEY, Event::Received { response: RESPONSE });
    for pair in actions.windows(2) {
        if matches!(pair[0], Action::Send { .. }) {
            assert_eq!(pair[1], Action::Pause { millis: PACE_MILLIS });
        }
    }
    assert_eq!(PACE_MILLIS, 10);
}

#[test]
fn read_timeout_aborts_and_stays_aborted() {
    let mut session = Session::new(MESSAGE, KEY);
    let mut action = session.pending();
    while !matches!(action, Action::Read { .. }) {
        let event = match action {
            Action::Send { .. } => Event::Sent,
            _ => Event::Paused,
        };
        action = session.step(event);
    }
    let expected = Action::Abort { error: LinkError::ReadTimeout };
    assert_eq!(session.step(Event::TimedOut), expected);
    assert_eq!(session.pending(), expected);
    assert_eq!(session.step(Event::Sent), expected);
    assert_eq!(session.step(Event::Received { response: RESPONSE }), expected);
}

#[test]
fn closed_channel_is_a_short_read() {
    let (_, last) = drive(MESSAGE, KEY, Event::Closed);
    assert_eq!(last, Action::Abort { error: LinkError::ShortRead });
}

#[test]
fn failed_message_send_aborts_with_message_error() {
    let mut session = Session::new(MESSAGE, KEY);
    assert!(session.expects(&Event::SendFailed));
    assert_eq!(
        session.step(Event::SendFailed),
        Action::Abort { error: LinkError::Write { operand: Operand::Message } }
    );
    assert_eq!(
        session.step(Event::Paused),
        Action::Abort { error: LinkError::Write { operand: Operand::Message } }
    );
}

#[test]
fn failed_key_send_aborts_with_key_error() {
    let mut session = Session::new(MESSAGE, KEY);
    let mut action = session.pending();
    while !matches!(action, Action::Send { operand: Operand::Key, .. }) {
        let event = match action {
            Action::Send { .. } => Event::Sent,
            _ => Event::Paused,
        };
        action = session.step(event);
    }
    assert_eq!(
        session.step(Event::SendFailed),
        Action::Abort { error: LinkError::Write { operand: Operand::Key } }
    );
}

#[test]
fn session_expects_only_answers_to_pending_action() {
    let session = Session::new(MESSAGE, KEY);
    assert!(session.expects(&Event::Sent));
    assert!(!session.expects(&Event::Paused));
    assert!(!session.expects(&Event::TimedOut));
    assert!(!session.expects(&Event::Received { response: RESPONSE }));
}
