use bytes::Bytes;
use message_relay::networking::error::NetworkingError;
use message_relay::networking::packet::Packet;
use message_relay::networking::packet_type::{LoginPacket, LogoutPacket};
use message_relay::networking::raw_packet::RawPacket;
use message_relay::server::user::{
    Session, SessionAction, SessionEvent, SessionState, UserStats, REJECTION_PACKET_TYPE,
};

fn rejection() -> SessionAction {
    SessionAction::Reject(RawPacket::new(1, Bytes::from("wrong packet")))
}

fn login_frame() -> RawPacket {
    RawPacket::from(Packet::Login(LoginPacket::new(
        String::from("a"),
        String::from("b"),
    )))
    .unwrap()
}

#[test]
fn a_new_session_waits_for_its_first_frame() {
    let session = Session::new(0xABCD, 1000);
    assert_eq!(session.id(), 0xABCD);
    assert_eq!(session.state(), SessionState::Handshake);
    assert_eq!(
        session.stats(),
        UserStats {
            join_at: 1000,
            last_interaction: None
        }
    );
    assert_eq!(REJECTION_PACKET_TYPE, 1);
}

#[test]
fn a_decoded_frame_makes_the_session_active() {
    let mut session = Session::new(1, 10);
    let action = session.on_event(SessionEvent::Frame(login_frame()), 20);
    assert_eq!(
        action,
        SessionAction::Handle(Packet::Login(LoginPacket::new(
            String::from("a"),
            String::from("b")
        )))
    );
    assert_eq!(session.state(), SessionState::Active);
    assert_eq!(
        session.stats(),
        UserStats {
            join_at: 10,
            last_interaction: Some(20)
        }
    );

    let logout = RawPacket::from(Packet::Logout(LogoutPacket::new(7))).unwrap();
    let action = session.on_event(SessionEvent::Frame(logout), 30);
    assert_eq!(action, SessionAction::Handle(Packet::Logout(LogoutPacket::new(7))));
    assert_eq!(session.state(), SessionState::Active);
    assert_eq!(session.stats().last_interaction, Some(30));
    assert_eq!(session.id(), 1);
}

#[test]
fn a_frame_that_does_not_decode_is_rejected() {
    let mut session = Session::new(1, 10);
    let action = session.on_event(
        SessionEvent::Frame(RawPacket::new(0xFE, Bytes::from(vec![1, 2]))),
        11,
    );
    assert_eq!(action, rejection());
    assert_eq!(session.state(), SessionState::Disconnected);
    assert_eq!(session.stats().last_interaction, Some(11));

    let mut session = Session::new(2, 10);
    session.on_event(SessionEvent::Frame(login_frame()), 11);
    let action = session.on_event(
        SessionEvent::Frame(RawPacket::new(1, Bytes::from(vec![9]))),
        12,
    );
    assert_eq!(action, rejection());
    assert_eq!(session.state(), SessionState::Disconnected);
}

#[test]
fn the_rejection_frame_says_wrong_packet() {
    let mut session = Session::new(1, 0);
    match session.on_event(SessionEvent::Rejected(NetworkingError::FrameTooLarge), 1) {
        SessionAction::Reject(raw) => {
            assert_eq!(raw.packet_type(), 1);
            assert_eq!(&raw.payload()[..], b"wrong packet");
        }
        other => panic!("unexpected action {:?}", other),
    }
}

#[test]
fn refused_bytes_end_the_session() {
    for error in [
        NetworkingError::FrameTooLarge,
        NetworkingError::InvalidPacketFormat,
    ] {
        let mut session = Session::new(1, 10);
        assert_eq!(session.on_event(SessionEvent::Rejected(error), 11), rejection());
        assert_eq!(session.state(), SessionState::Disconnected);
        assert_eq!(session.stats().last_interaction, None);
    }
    let mut session = Session::new(1, 10);
    assert_eq!(
        session.on_event(SessionEvent::Rejected(NetworkingError::TransportClosed), 11),
        SessionAction::Close
    );
    assert_eq!(session.state(), SessionState::Disconnected);
}

#[test]
fn the_end_of_the_stream_closes_without_a_word() {
    let mut session = Session::new(1, 10);
    assert_eq!(session.on_event(SessionEvent::EndOfStream, 11), SessionAction::Close);
    assert_eq!(session.state(), SessionState::Disconnected);
    assert_eq!(session.stats().last_interaction, None);

    let mut session = Session::new(1, 10);
    session.on_event(SessionEvent::Frame(login_frame()), 11);
    assert_eq!(session.on_event(SessionEvent::TransportFailed, 12), SessionAction::Close);
    assert_eq!(session.state(), SessionState::Disconnected);
    assert_eq!(session.stats().last_interaction, Some(11));
}

#[test]
fn a_session_that_is_over_stays_over() {
    let mut session = Session::new(1, 10);
    session.on_event(SessionEvent::EndOfStream, 11);
    for event in [
        SessionEvent::Frame(login_frame()),
        SessionEvent::Rejected(NetworkingError::FrameTooLarge),
        SessionEvent::EndOfStream,
        SessionEvent::TransportFailed,
    ] {
        assert_eq!(session.on_event(event, 12), SessionAction::Close);
        assert_eq!(session.state(), SessionState::Disconnected);
        assert_eq!(session.stats().last_interaction, None);
    }
}
