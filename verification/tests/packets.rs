use vigilant_guard::codec::{DecodeError, EncodeError, MAX_PACKET_SIZE};
use vigilant_guard::packet::c2s::{Handshake, LoginHello, QueryPing, QueryRequest};
use vigilant_guard::packet::s2c::{Disconnect, QueryPong, QueryResponse};
use vigilant_guard::packet::{NextState, Packet, PacketDirection, PacketStage, PacketState};

fn sample_handshake() -> Handshake {
    Handshake {
        protocol_version: 758,
        server_address: "localhost".to_string(),
        server_port: 25565,
        next_state: NextState::Status,
    }
}

fn sample_handshake_bytes() -> Vec<u8> {
    let mut bytes = vec![0x00, 0xf6, 0x05, 0x09];
    bytes.extend_from_slice(b"localhost");
    bytes.extend_from_slice(&[0x63, 0xdd, 0x01]);
    bytes
}

#[test]
fn handshake_has_its_wire_form() {
    assert_eq!(sample_handshake().encode(), Ok(sample_handshake_bytes()));
}

#[test]
fn handshake_reads_back() {
    assert_eq!(Handshake::decode(&sample_handshake_bytes()), Ok(sample_handshake()));
    let mut login = sample_handshake_bytes();
    let last = login.len() - 1;
    login[last] = 2;
    let packet = Handshake::decode(&login).unwrap();
    assert_eq!(packet.next_state, NextState::Login);
}

#[test]
fn handshake_with_unknown_next_state_is_refused() {
    for tag in [0u8, 3, 0x7f] {
        let mut bytes = sample_handshake_bytes();
        let last = bytes.len() - 1;
        bytes[last] = tag;
        assert_eq!(Handshake::decode(&bytes), Err(DecodeError::InvalidNextState));
    }
}

#[test]
fn handshake_decode_errors() {
    let good = sample_handshake_bytes();
    assert_eq!(Handshake::decode(&[]), Err(DecodeError::UnexpectedEof));
    assert_eq!(Handshake::decode(&good[..good.len() - 1]), Err(DecodeError::UnexpectedEof));
    assert_eq!(Handshake::decode(&good[..6]), Err(DecodeError::UnexpectedEof));
    let mut wrong_id = good.clone();
    wrong_id[0] = 1;
    assert_eq!(Handshake::decode(&wrong_id), Err(DecodeError::WrongPacketId));
    let mut trailing = good.clone();
    trailing.push(0);
    assert_eq!(Handshake::decode(&trailing), Err(DecodeError::TrailingBytes));
    let mut bad_text = good.clone();
    bad_text[4] = 0xff;
    assert_eq!(Handshake::decode(&bad_text), Err(DecodeError::InvalidUtf8));
}

#[test]
fn query_request_is_only_its_id() {
    assert_eq!(QueryRequest.encode(), Ok(vec![0x00]));
    assert_eq!(QueryRequest::decode(&[0x00]), Ok(QueryRequest));
    assert_eq!(QueryRequest::decode(&[0x01]), Err(DecodeError::WrongPacketId));
    assert_eq!(QueryRequest::decode(&[0x00, 0x00]), Err(DecodeError::TrailingBytes));
    assert_eq!(QueryRequest::decode(&[]), Err(DecodeError::UnexpectedEof));
}

#[test]
fn ping_and_pong_carry_eight_bytes() {
    let wire = vec![0x01, 0, 0, 0, 0, 0, 0, 0, 42];
    assert_eq!(QueryPing { payload: 42 }.encode(), Ok(wire.clone()));
    assert_eq!(QueryPong { payload: 42 }.encode(), Ok(wire.clone()));
    assert_eq!(QueryPing::decode(&wire), Ok(QueryPing { payload: 42 }));
    assert_eq!(QueryPong::decode(&wire), Ok(QueryPong { payload: 42 }));
    let big = QueryPing { payload: u64::MAX }.encode().unwrap();
    assert_eq!(big, vec![0x01, 0xff, 0xff, 0xff, 0xff, 0xff, 0xff, 0xff, 0xff]);
    assert_eq!(QueryPing::decode(&big), Ok(QueryPing { payload: u64::MAX }));
    assert_eq!(QueryPing::decode(&wire[..8]), Err(DecodeError::UnexpectedEof));
    assert_eq!(QueryPong::decode(&[0x00, 0, 0, 0, 0, 0, 0, 0, 42]), Err(DecodeError::WrongPacketId));
}

#[test]
fn login_hello_with_and_without_profile() {
    let plain = LoginHello { username: "Steve".to_string(), profile_id: None };
    let wire = plain.encode().unwrap();
    assert_eq!(wire, vec![0x00, 5, b'S', b't', b'e', b'v', b'e', 0]);
    assert_eq!(LoginHello::decode(&wire), Ok(plain));

    let id: u128 = 0x0011_2233_4455_6677_8899_aabb_ccdd_eeff;
    let with = LoginHello { username: "Alex".to_string(), profile_id: Some(id) };
    let wire = with.encode().unwrap();
    assert_eq!(wire.len(), 1 + 5 + 1 + 16);
    assert_eq!(wire[6], 1);
    assert_eq!(&wire[7..], &id.to_be_bytes());
    assert_eq!(LoginHello::decode(&wire), Ok(with));
}

#[test]
fn login_hello_decode_errors() {
    assert_eq!(LoginHello::decode(&[0x00, 1, b'a', 2]), Err(DecodeError::InvalidBool));
    assert_eq!(LoginHello::decode(&[0x00, 1, b'a']), Err(DecodeError::UnexpectedEof));
    assert_eq!(LoginHello::decode(&[0x00, 1, b'a', 1, 0, 0]), Err(DecodeError::UnexpectedEof));
    assert_eq!(LoginHello::decode(&[0x00, 1, b'a', 0, 0]), Err(DecodeError::TrailingBytes));
}

#[test]
fn status_and_refusal_carry_one_text() {
    let status = QueryResponse { json: "{}".to_string() };
    assert_eq!(status.encode(), Ok(vec![0x00, 2, b'{', b'}']));
    assert_eq!(QueryResponse::decode(&[0x00, 2, b'{', b'}']), Ok(status));
    let refusal = Disconnect { reason: "\"no\"".to_string() };
    assert_eq!(refusal.encode(), Ok(vec![0x00, 4, b'"', b'n', b'o', b'"']));
    assert_eq!(Disconnect::decode(&[0x00, 4, b'"', b'n', b'o', b'"']), Ok(refusal));
    assert_eq!(QueryResponse::decode(&[0x00, 2, b'{']), Err(DecodeError::UnexpectedEof));
}

#[test]
fn a_packet_over_the_limit_is_not_written() {
    let huge = QueryResponse { json: "x".repeat(MAX_PACKET_SIZE) };
    assert_eq!(huge.encode(), Err(EncodeError::PacketTooLarge));
    let fits = QueryResponse { json: "x".repeat(MAX_PACKET_SIZE - 4) };
    assert_eq!(fits.encode().map(|content| content.len()), Ok(MAX_PACKET_SIZE));
    let name = LoginHello { username: "y".repeat(MAX_PACKET_SIZE + 1), profile_id: None };
    assert_eq!(name.encode(), Err(EncodeError::PacketTooLarge));
    let address = Handshake { server_address: "z".repeat(MAX_PACKET_SIZE), ..sample_handshake() };
    assert_eq!(address.encode(), Err(EncodeError::PacketTooLarge));
}

#[test]
fn packets_decode_by_stage() {
    assert_eq!(
        Packet::decode(PacketStage::C2sHandshake, &sample_handshake_bytes()),
        Ok(Packet::Handshake(sample_handshake()))
    );
    assert_eq!(Packet::decode(PacketStage::C2sQueryRequest, &[0]), Ok(Packet::QueryRequest(QueryRequest)));
    let nine = [0x01, 0, 0, 0, 0, 0, 0, 0, 7];
    assert_eq!(Packet::decode(PacketStage::C2sPingRequest, &nine), Ok(Packet::QueryPing(QueryPing { payload: 7 })));
    assert_eq!(Packet::decode(PacketStage::S2cPingResponse, &nine), Ok(Packet::QueryPong(QueryPong { payload: 7 })));
    assert_eq!(Packet::decode(PacketStage::C2sQueryRequest, &nine), Err(DecodeError::WrongPacketId));
    assert_eq!(
        Packet::decode(PacketStage::S2cQueryResponse, &[0, 1, b'x']),
        Ok(Packet::QueryResponse(QueryResponse { json: "x".to_string() }))
    );
    assert_eq!(
        Packet::decode(PacketStage::C2sLoginStart, &[0, 1, b'x', 0]),
        Ok(Packet::LoginHello(LoginHello { username: "x".to_string(), profile_id: None }))
    );
}

#[test]
fn every_packet_round_trips() {
    let packets = vec![
        Packet::Handshake(sample_handshake()),
        Packet::QueryRequest(QueryRequest),
        Packet::QueryResponse(QueryResponse { json: "{\"a\":\"\u{2603}\"}".to_string() }),
        Packet::QueryPing(QueryPing { payload: 0x0102_0304_0506_0708 }),
        Packet::QueryPong(QueryPong { payload: 0 }),
        Packet::LoginHello(LoginHello { username: "N\u{f8}tch".to_string(), profile_id: Some(1) }),
    ];
    for packet in packets {
        let content = packet.encode().unwrap();
        assert_eq!(Packet::decode(packet.stage(), &content), Ok(packet));
    }
}

#[test]
fn stages_know_their_direction_and_id() {
    assert_eq!(PacketStage::C2sHandshake.direction(), PacketDirection::C2S);
    assert_eq!(PacketStage::C2sQueryRequest.direction(), PacketDirection::C2S);
    assert_eq!(PacketStage::C2sPingRequest.direction(), PacketDirection::C2S);
    assert_eq!(PacketStage::C2sLoginStart.direction(), PacketDirection::C2S);
    assert_eq!(PacketStage::S2cQueryResponse.direction(), PacketDirection::S2C);
    assert_eq!(PacketStage::S2cPingResponse.direction(), PacketDirection::S2C);
    assert_eq!(PacketStage::C2sPingRequest.packet_id(), 1);
    assert_eq!(PacketStage::S2cPingResponse.packet_id(), 1);
    assert_eq!(PacketStage::C2sHandshake.packet_id(), 0);
    assert_eq!(PacketStage::S2cQueryResponse.packet_id(), 0);
}

#[test]
fn states_only_move_forward() {
    assert_eq!(PacketState::try_from(0), Ok(PacketState::Handshake));
    assert_eq!(PacketState::try_from(1), Ok(PacketState::Status));
    assert_eq!(PacketState::try_from(2), Ok(PacketState::Login));
    assert_eq!(PacketState::try_from(3), Err(()));
    assert_eq!(PacketState::try_from(-1), Err(()));

    assert_eq!(PacketState::Handshake.requested(NextState::Status), Some(PacketState::Status));
    assert_eq!(PacketState::Handshake.requested(NextState::Login), Some(PacketState::Login));
    for state in [PacketState::Status, PacketState::Login, PacketState::Play] {
        assert_eq!(state.requested(NextState::Status), None);
        assert_eq!(state.requested(NextState::Login), None);
    }
    assert_eq!(PacketState::Login.admitted(), Some(PacketState::Play));
    for state in [PacketState::Handshake, PacketState::Status, PacketState::Play] {
        assert_eq!(state.admitted(), None);
    }
    assert_eq!(NextState::Status.state(), PacketState::Status);
    assert_eq!(NextState::Login.state(), PacketState::Login);
}
