use netcode::connection::{
    ClientHandshake, ConnectFailure, ConnectPoll, Connecting, HandshakeError, HandshakeState,
    Signal, StopSignal,
};
use netcode::error::{DecodeError, FramingError};
use netcode::framing::receive_message;
use netcode::handshake::{
    decode_login_response, encode_login_request, encode_login_response, validate_login_request,
    LoginRejection, LoginResponse, LoginResult, ProtocolHeader, ResponseError, Vec2Bits, Vec3Bits,
};
use netcode::message::{relay_chat, InMsg};
use netcode::net::{NetworkId, MAX_ONLINE_PLAYERS, PROTOCOL_MAGIC, PROTOCOL_VERSION};
use netcode::registry::SessionRegistry;
use netcode::serialization::byte_reader::ByteReader;
use netcode::serialization::byte_writer::ByteWriter;
use netcode::session::{Phase, Session, SessionAction};

fn spawn_state() -> LoginResponse {
    LoginResponse {
        nid: NetworkId::from_raw(7),
        position: Vec3Bits { x: 0f32.to_bits(), y: 64f32.to_bits(), z: 0f32.to_bits() },
        head_rotation: Vec2Bits { x: 0f32.to_bits(), y: 0f32.to_bits() },
        world_seed: 42,
    }
}

fn request_payload(magic: u16, version: u16, username: &str) -> Vec<u8> {
    let mut buf = vec![0u8; 6 + username.len()];
    let mut writer = ByteWriter::new(&mut buf);
    writer.write_u16(magic).write_u16(version).write_str(username);
    buf
}

#[test]
fn the_protocol_constants_are_those_of_the_wire() {
    assert_eq!(PROTOCOL_MAGIC, 0xB7C1);
    assert_eq!(PROTOCOL_VERSION, 0);
    assert_eq!(MAX_ONLINE_PLAYERS, 64);
    assert_eq!(ProtocolHeader::current(), ProtocolHeader { magic: 0xB7C1, version: 0 });
    assert!(ProtocolHeader::current().is_current());
    assert!(!ProtocolHeader { magic: 0xB7C1, version: 1 }.is_current());
    assert!(!ProtocolHeader { magic: 0xB7C2, version: 0 }.is_current());
}

#[test]
fn network_ids_are_their_raw_value() {
    assert_eq!(NetworkId::from_raw(513).raw(), 513);
    assert_eq!(NetworkId::invalid().raw(), 0);
    assert!(!NetworkId::invalid().is_valid());
    assert!(NetworkId::from_raw(1).is_valid());
    assert_eq!(NetworkId::from_raw(9), NetworkId::from_raw(9));
    assert_ne!(NetworkId::from_raw(9), NetworkId::from_raw(10));
}

#[test]
fn the_login_request_is_bit_exact() {
    let mut buf = [0u8; 256];
    let framed = encode_login_request(&mut buf, "Alice").unwrap();
    assert_eq!(
        framed,
        &[11, 0, 0xC1, 0xB7, 0, 0, 5, 0, b'A', b'l', b'i', b'c', b'e']
    );
}

#[test]
fn a_username_that_overflows_the_envelope_is_refused() {
    let username = "u".repeat(65530);
    let mut buf = vec![0x55u8; 65538];
    assert_eq!(encode_login_request(&mut buf, &username).err(), Some(FramingError::Oversized));
    assert!(buf.iter().all(|b| *b == 0x55));
    let username = "u".repeat(65529);
    assert_eq!(encode_login_request(&mut buf, &username).unwrap().len(), 65537);
}

#[test]
fn handshake_accept_scenario() {
    // Client side: the request.
    let mut handshake = ClientHandshake::new();
    assert_eq!(handshake.state(), HandshakeState::Idle);
    let mut request_buf = [0u8; 256];
    let request = handshake.begin(&mut request_buf, "Alice").unwrap().to_vec();
    assert_eq!(handshake.state(), HandshakeState::AwaitingResponse);

    // Server side: the request comes in, the game loop answers.
    let mut stream = ByteReader::new(&request);
    let mut payload = Vec::new();
    receive_message(&mut stream, &mut payload).unwrap();
    let mut session = Session::new();
    match session.on_request(&payload) {
        SessionAction::RequestIdentity { username } => assert_eq!(username, "Alice"),
        _ => panic!("the request should be taken"),
    }
    assert_eq!(session.phase(), Phase::AwaitingIdentity);
    let response = match session.on_identity(LoginResult::Accepted(spawn_state())) {
        SessionAction::Accept { response, joined } => {
            assert_eq!(joined.nid, NetworkId::from_raw(7));
            assert_eq!(joined.username, "Alice");
            response
        }
        _ => panic!("the player should be let in"),
    };
    assert_eq!(session.phase(), Phase::Established);
    assert_eq!(response.len(), 32);
    assert_eq!(&response[..4], &[30, 0, 7, 0]);
    assert_eq!(&response[4..8], &0f32.to_le_bytes());
    assert_eq!(&response[8..12], &64f32.to_le_bytes());
    assert_eq!(&response[24..], &42u64.to_le_bytes());

    // Client side: the answer.
    let mut stream = ByteReader::new(&response);
    let mut payload = Vec::new();
    let reader = receive_message(&mut stream, &mut payload).unwrap();
    let decoded = handshake.on_response(reader.bytes()).unwrap();
    assert_eq!(handshake.state(), HandshakeState::Accepted);
    assert_eq!(decoded, spawn_state());
    assert_eq!(decoded.nid.raw(), 7);
    assert_eq!(f32::from_bits(decoded.position.x), 0.0);
    assert_eq!(f32::from_bits(decoded.position.y), 64.0);
    assert_eq!(f32::from_bits(decoded.position.z), 0.0);
    assert_eq!(f32::from_bits(decoded.head_rotation.x), 0.0);
    assert_eq!(f32::from_bits(decoded.head_rotation.y), 0.0);
    assert_eq!(decoded.world_seed, 42);
}

#[test]
fn a_wrong_magic_closes_with_code_one() {
    let payload = request_payload(0xB7C2, 0, "Alice");
    assert_eq!(validate_login_request(&payload), Err(LoginRejection::Malformed));
    let mut session = Session::new();
    match session.on_request(&payload) {
        SessionAction::Close { code, reason } => {
            assert_eq!(code, 1);
            assert_eq!(reason, "Invalid login request");
        }
        _ => panic!("the connection should be closed"),
    }
    assert_eq!(session.phase(), Phase::Closed);

    // The client never gets the 30 bytes of an answer.
    let mut handshake = ClientHandshake::new();
    let mut buf = [0u8; 64];
    handshake.begin(&mut buf, "Alice").unwrap();
    handshake.on_transport_failure();
    assert_eq!(handshake.state(), HandshakeState::Rejected);
    assert_eq!(handshake.on_response(&[0; 30]), Err(HandshakeError::OutOfOrder));
}

#[test]
fn a_wrong_version_closes_with_code_one() {
    let payload = request_payload(0xB7C1, 1, "Alice");
    assert_eq!(validate_login_request(&payload), Err(LoginRejection::Malformed));
    assert_eq!(LoginRejection::Malformed.close_code(), 1);
    assert_eq!(LoginRejection::Malformed.close_reason(), "Invalid login request");
}

#[test]
fn a_username_of_two_bytes_closes_with_code_two() {
    let payload = request_payload(0xB7C1, 0, "ab");
    assert_eq!(validate_login_request(&payload), Err(LoginRejection::UsernameTooShort));
    let mut session = Session::new();
    match session.on_request(&payload) {
        SessionAction::Close { code, reason } => {
            assert_eq!(code, 2);
            assert_eq!(reason, "Username too short");
        }
        _ => panic!("the connection should be closed"),
    }
    assert_eq!(session.phase(), Phase::Closed);
}

#[test]
fn the_username_length_counts_bytes() {
    let payload = request_payload(0xB7C1, 0, "abc");
    assert_eq!(validate_login_request(&payload), Ok("abc"));
    // Two characters, four bytes.
    let payload = request_payload(0xB7C1, 0, "éé");
    assert_eq!(validate_login_request(&payload), Ok("éé"));
}

#[test]
fn a_request_that_is_cut_off_or_garbled_is_malformed() {
    assert_eq!(validate_login_request(&[]), Err(LoginRejection::Malformed));
    assert_eq!(validate_login_request(&[0xC1, 0xB7, 0, 0, 3]), Err(LoginRejection::Malformed));
    assert_eq!(
        validate_login_request(&[0xC1, 0xB7, 0, 0, 9, 0, b'a', b'b', b'c']),
        Err(LoginRejection::Malformed)
    );
    assert_eq!(
        validate_login_request(&[0xC1, 0xB7, 0, 0, 3, 0, 0xFF, 0xFE, 0xFD]),
        Err(LoginRejection::Malformed)
    );
}

#[test]
fn a_denied_login_closes_with_code_two_and_the_reason() {
    let mut session = Session::new();
    session.on_request(&request_payload(0xB7C1, 0, "Mallory"));
    match session.on_identity(LoginResult::Denied { reason: String::from("banned") }) {
        SessionAction::Close { code, reason } => {
            assert_eq!(code, 2);
            assert_eq!(reason, "banned");
        }
        _ => panic!("the connection should be closed"),
    }
    assert_eq!(session.phase(), Phase::Closed);
    assert!(matches!(session.on_end(), SessionAction::Idle));
}

#[test]
fn a_player_that_joined_leaves_exactly_once() {
    let mut session = Session::new();
    session.on_request(&request_payload(0xB7C1, 0, "Alice"));
    assert!(matches!(
        session.on_identity(LoginResult::Accepted(spawn_state())),
        SessionAction::Accept { .. }
    ));
    match session.on_end() {
        SessionAction::Leave { nid } => assert_eq!(nid.raw(), 7),
        _ => panic!("the player should be announced as gone"),
    }
    assert!(matches!(session.on_end(), SessionAction::Idle));
    assert!(matches!(session.on_request(&[]), SessionAction::Idle));
    assert!(matches!(
        session.on_identity(LoginResult::Accepted(spawn_state())),
        SessionAction::Idle
    ));
    assert_eq!(session.phase(), Phase::Closed);
}

#[test]
fn payloads_are_passed_on_under_the_senders_handle() {
    let mut session = Session::new();
    assert!(matches!(session.on_payload(&[1, 2, 3]), SessionAction::Idle));
    session.on_request(&request_payload(0xB7C1, 0, "Alice"));
    assert!(matches!(session.on_payload(&[1, 2, 3]), SessionAction::Idle));
    session.on_identity(LoginResult::Accepted(spawn_state()));
    for payload in [&[1u8, 2, 3][..], &[][..], &[0xFF; 40][..]] {
        match session.on_payload(payload) {
            SessionAction::Forward { nid, payload: passed } => {
                assert_eq!(nid.raw(), 7);
                assert_eq!(passed, payload);
            }
            _ => panic!("the payload should be passed on"),
        }
    }
    assert_eq!(session.phase(), Phase::Established);
    session.on_end();
    assert!(matches!(session.on_payload(&[1, 2, 3]), SessionAction::Idle));
}

#[test]
fn a_connection_that_ends_before_the_login_announces_nothing() {
    let mut session = Session::new();
    assert!(matches!(session.on_end(), SessionAction::Idle));
    let mut session = Session::new();
    session.on_request(&request_payload(0xB7C1, 0, "Alice"));
    assert!(matches!(session.on_end(), SessionAction::Idle));
    assert_eq!(session.phase(), Phase::Closed);
}

#[test]
fn events_out_of_turn_change_nothing() {
    let mut session = Session::new();
    assert!(matches!(
        session.on_identity(LoginResult::Accepted(spawn_state())),
        SessionAction::Idle
    ));
    assert_eq!(session.phase(), Phase::AwaitingRequest);
    session.on_request(&request_payload(0xB7C1, 0, "Alice"));
    assert!(matches!(
        session.on_request(&request_payload(0xB7C1, 0, "Bob")),
        SessionAction::Idle
    ));
    assert_eq!(session.phase(), Phase::AwaitingIdentity);
}

#[test]
fn the_accept_payload_round_trips() {
    let state = LoginResponse {
        nid: NetworkId::from_raw(0xFFFF),
        position: Vec3Bits { x: 1.5f32.to_bits(), y: (-2.25f32).to_bits(), z: f32::MAX.to_bits() },
        head_rotation: Vec2Bits { x: f32::NAN.to_bits(), y: f32::INFINITY.to_bits() },
        world_seed: u64::MAX,
    };
    let mut buf = [0u8; 32];
    let framed = encode_login_response(&mut buf, &state);
    assert_eq!(framed.len(), 32);
    assert_eq!(decode_login_response(&framed[2..]), Ok(state));
}

#[test]
fn a_short_answer_fails_the_login() {
    assert_eq!(decode_login_response(&[0; 29]), Err(ResponseError::TooShort { got: 29 }));
    assert_eq!(decode_login_response(&[]), Err(ResponseError::TooShort { got: 0 }));
    assert!(decode_login_response(&[0; 30]).is_ok());

    let mut handshake = ClientHandshake::new();
    let mut buf = [0u8; 64];
    handshake.begin(&mut buf, "Alice").unwrap();
    assert_eq!(handshake.on_response(&[0; 12]), Err(HandshakeError::ShortResponse { got: 12 }));
    assert_eq!(handshake.state(), HandshakeState::Rejected);
}

#[test]
fn the_login_is_one_round_trip() {
    let mut handshake = ClientHandshake::new();
    assert_eq!(handshake.on_response(&[0; 30]), Err(HandshakeError::OutOfOrder));
    let mut buf = [0u8; 64];
    handshake.begin(&mut buf, "Alice").unwrap();
    let mut again = [0u8; 64];
    assert_eq!(handshake.begin(&mut again, "Alice").err(), Some(HandshakeError::OutOfOrder));
    handshake.on_response(&[0; 30]).unwrap();
    assert_eq!(handshake.on_response(&[0; 30]), Err(HandshakeError::OutOfOrder));
    handshake.on_transport_failure();
    assert_eq!(handshake.state(), HandshakeState::Accepted);
}

#[test]
fn an_oversized_username_fails_the_login() {
    let username = "u".repeat(65530);
    let mut buf = vec![0u8; 65538];
    let mut handshake = ClientHandshake::new();
    assert_eq!(handshake.begin(&mut buf, &username).err(), Some(HandshakeError::Oversized));
    assert_eq!(handshake.state(), HandshakeState::Rejected);
}

#[test]
fn a_poll_of_a_pending_attempt_changes_nothing() {
    let mut attempt = Connecting::new("handle");
    for _ in 0..3 {
        assert!(matches!(attempt.tick(Signal::Empty), ConnectPoll::Pending));
        assert!(attempt.has_handle());
    }
    match attempt.tick(Signal::Value(Ok(spawn_state()))) {
        ConnectPoll::Established(state, handle) => {
            assert_eq!(state, spawn_state());
            assert_eq!(handle, "handle");
        }
        _ => panic!("the connection should stand"),
    }
    assert!(!attempt.has_handle());
    assert!(matches!(attempt.tick(Signal::Empty), ConnectPoll::Pending));
}

#[test]
fn a_failed_attempt_hands_the_reason_on() {
    let mut attempt = Connecting::new(1u8);
    match attempt.tick(Signal::Value(Err(String::from("Connection failed: timed out")))) {
        ConnectPoll::Failed(ConnectFailure::Failed(reason)) => {
            assert_eq!(reason, "Connection failed: timed out")
        }
        _ => panic!("the attempt should have failed"),
    }
    assert!(matches!(
        attempt.tick(Signal::Closed),
        ConnectPoll::Failed(ConnectFailure::Lost)
    ));
}

#[test]
fn a_stop_is_asked_for_once() {
    let mut stop = StopSignal::new(5u32);
    assert!(stop.is_armed());
    assert_eq!(stop.request_stop(), Some(5));
    assert!(!stop.is_armed());
    assert_eq!(stop.request_stop(), None);
    assert_eq!(stop.request_stop(), None);
}

#[test]
fn chat_messages_round_trip() {
    let mut buf = [0u8; 16];
    let mut writer = ByteWriter::new(&mut buf);
    InMsg::Chat("hi!").encode(&mut writer);
    assert_eq!(writer.bytes(), &[1, 3, 0, b'h', b'i', b'!']);
    match InMsg::decode(&buf[..6]) {
        Ok(InMsg::Chat(text)) => assert_eq!(text, "hi!"),
        Err(e) => panic!("the message should be read: {e:?}"),
    }
}

#[test]
fn a_message_of_no_known_kind_is_refused() {
    assert!(matches!(InMsg::decode(&[2, 0, 0]), Err(DecodeError::UnknownTag)));
    assert!(matches!(InMsg::decode(&[]), Err(DecodeError::OutOfBounds)));
    assert!(matches!(InMsg::decode(&[1, 4, 0, b'a']), Err(DecodeError::OutOfBounds)));
    assert!(matches!(InMsg::decode(&[1, 1, 0, 0xFF]), Err(DecodeError::InvalidUtf8)));
}

#[test]
fn a_chat_line_names_its_sender() {
    assert_eq!(relay_chat("Alice", &[2, 0, b'y', b'o']), Ok(b"Alice: yo".to_vec()));
    assert_eq!(relay_chat("Alice", &[0, 0]), Ok(b"Alice: ".to_vec()));
    assert_eq!(relay_chat("Alice", &[3, 0, b'y']), Err(DecodeError::OutOfBounds));
    assert_eq!(relay_chat("Alice", &[1, 0, 0x80]), Err(DecodeError::InvalidUtf8));
}

#[test]
fn handles_are_fresh_and_never_zero() {
    let mut registry = SessionRegistry::new();
    let first = registry.allocate().unwrap();
    let second = registry.allocate().unwrap();
    assert_eq!(first.raw(), 1);
    assert_eq!(second.raw(), 2);
    assert!(registry.is_open(first));
    assert!(registry.is_open(second));
    assert!(!registry.is_open(NetworkId::invalid()));
    registry.release(first);
    assert!(!registry.is_open(first));
    assert_eq!(registry.allocate().unwrap().raw(), 1);
    assert_eq!(registry.allocate().unwrap().raw(), 3);
}

#[test]
fn a_full_server_turns_players_away() {
    let mut registry = SessionRegistry::new();
    let zero3 = Vec3Bits { x: 0, y: 0, z: 0 };
    let zero2 = Vec2Bits { x: 0, y: 0 };
    for expected in 1..=64u16 {
        match registry.answer_login(zero3, zero2, 9) {
            LoginResult::Accepted(state) => {
                assert_eq!(state.nid.raw(), expected);
                assert_eq!(state.world_seed, 9);
            }
            LoginResult::Denied { .. } => panic!("there should be room"),
        }
    }
    assert!(registry.allocate().is_none());
    match registry.answer_login(zero3, zero2, 9) {
        LoginResult::Denied { reason } => assert_eq!(reason, "Server is full"),
        LoginResult::Accepted(_) => panic!("there should be no room"),
    }
    registry.release(NetworkId::from_raw(40));
    registry.release(NetworkId::from_raw(0));
    registry.release(NetworkId::from_raw(65));
    assert_eq!(registry.allocate().unwrap().raw(), 40);
    assert!(registry.allocate().is_none());
}
