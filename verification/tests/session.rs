use rust_ore::client::Client;
use rust_ore::client_state::ClientState;
use rust_ore::config::IdentityPolicy;
use rust_ore::config::PROTOCOL_VERSION;
use rust_ore::config::ServerConfig;
use rust_ore::errors::ClientError;
use rust_ore::errors::PacketError;
use rust_ore::errors::ServerError;
use rust_ore::mc_packet::MCPacket;
use rust_ore::server::bind_target;
use rust_ore::server::parse_u16;
use rust_ore::uuid::UUID;

fn config_with(pairs: &[(&str, &str)]) -> ServerConfig {
    let entries: Vec<(String, String)> =
        pairs.iter().map(|(k, v)| (k.to_string(), v.to_string())).collect();
    ServerConfig::from_pairs(entries)
}

fn offline_deterministic_config() -> ServerConfig {
    config_with(&[
        ("server-host", "localhost"),
        ("server-port", "25565"),
        ("online-mode", "false"),
        ("identity-mode", "name"),
    ])
}

fn handshake_packet(protocol: i32, host: &str, port: u16, next_state: i32) -> MCPacket {
    let mut packet = MCPacket::new(0x00);
    packet.write_varint(protocol);
    packet.write_string(host);
    let port_bytes = port.to_le_bytes();
    packet.data.push(port_bytes[0]);
    packet.data.push(port_bytes[1]);
    packet.write_varint(next_state);
    packet
}

fn login_packet(username: &str) -> MCPacket {
    let mut packet = MCPacket::new(0x00);
    packet.write_string(username);
    packet
}

#[test]
fn config_lookup_first_match_wins() {
    let config = config_with(&[("a", "1"), ("b", "2"), ("a", "3")]);
    assert_eq!(config.get("a").unwrap(), "1");
    assert_eq!(config.get("b").unwrap(), "2");
    assert!(config.get("c").is_none());
}

#[test]
fn config_online_mode_defaults_to_true() {
    assert!(config_with(&[]).online_mode());
    assert!(config_with(&[("online-mode", "true")]).online_mode());
    assert!(config_with(&[("online-mode", "yes")]).online_mode());
    assert!(!config_with(&[("online-mode", "false")]).online_mode());
}

#[test]
fn config_identity_policy() {
    assert_eq!(config_with(&[]).identity_policy(), IdentityPolicy::Random);
    assert_eq!(
        config_with(&[("identity-mode", "name")]).identity_policy(),
        IdentityPolicy::NameDerived
    );
    assert_eq!(
        config_with(&[("identity-mode", "random")]).identity_policy(),
        IdentityPolicy::Random
    );
}

#[test]
fn client_new_requires_server_host() {
    let config = config_with(&[("server-port", "25565")]);
    match Client::new(&config) {
        Err(ServerError::MissingProperty(k)) => assert_eq!(k, "server-host"),
        other => panic!("expected missing server-host, got {:?}", other.is_ok()),
    }
}

#[test]
fn client_starts_in_handshake_state() {
    let client = Client::new(&offline_deterministic_config()).unwrap();
    assert_eq!(client.state(), ClientState::Handshake);
    assert!(!client.running());
    assert_eq!(client.username(), "");
    assert!(client.identity().is_none());
}

#[test]
fn start_twice_reports_already_running() {
    let mut client = Client::new(&offline_deterministic_config()).unwrap();
    assert!(client.start().is_ok());
    assert!(client.running());
    assert!(matches!(client.start(), Err(ClientError::AlreadyRunning)));
    assert!(client.running());
}

#[test]
fn close_is_idempotent() {
    let mut client = Client::new(&offline_deterministic_config()).unwrap();
    client.start().unwrap();
    client.close();
    assert!(!client.running());
    client.close();
    assert!(!client.running());
}

#[test]
fn handshake_host_mismatch_rejected_and_closed() {
    // A wrong host is rejected whatever the requested next state says.
    for next_state in [1, 2, 3, 99] {
        let mut client = Client::new(&offline_deterministic_config()).unwrap();
        client.start().unwrap();
        let packet = handshake_packet(PROTOCOL_VERSION, "example.com", 25565, next_state);
        match client.handle_packet(packet) {
            Err(ClientError::IncorrectHost(h)) => assert_eq!(h, "example.com"),
            other => panic!("expected host mismatch, got ok={:?}", other.is_ok()),
        }
        assert!(!client.running(), "the session must transition to closed");
        assert_eq!(client.state(), ClientState::Handshake);
    }
}

#[test]
fn handshake_next_state_three_is_invalid_transition() {
    let mut client = Client::new(&offline_deterministic_config()).unwrap();
    client.start().unwrap();
    let packet = handshake_packet(PROTOCOL_VERSION, "localhost", 25565, 3);
    match client.handle_packet(packet) {
        Err(ClientError::InvalidStateTransition(v)) => assert_eq!(v, 3),
        other => panic!("expected invalid transition, got ok={:?}", other.is_ok()),
    }
    assert!(!client.running());
}

#[test]
fn handshake_wrong_protocol_version() {
    let mut client = Client::new(&offline_deterministic_config()).unwrap();
    let packet = handshake_packet(755, "localhost", 25565, 2);
    match client.handle_handshake(packet) {
        Err(ClientError::InvalidProtocolVersion(got, expected)) => {
            assert_eq!(got, 755);
            assert_eq!(expected, PROTOCOL_VERSION);
        }
        other => panic!("expected version mismatch, got ok={:?}", other.is_ok()),
    }
}

#[test]
fn handshake_unknown_packet_id() {
    let mut client = Client::new(&offline_deterministic_config()).unwrap();
    let packet = MCPacket::new(0x07);
    match client.handle_handshake(packet) {
        Err(ClientError::InvalidPacketID(id)) => assert_eq!(id, 0x07),
        other => panic!("expected invalid packet id, got ok={:?}", other.is_ok()),
    }
}

#[test]
fn handshake_truncated_fields_are_typed_errors() {
    let mut client = Client::new(&offline_deterministic_config()).unwrap();
    let mut packet = MCPacket::new(0x00);
    packet.write_varint(PROTOCOL_VERSION);
    // The host, port and next state are missing.
    match client.handle_handshake(packet) {
        Err(ClientError::PacketError(PacketError::Truncated)) => {}
        other => panic!("expected truncated field, got ok={:?}", other.is_ok()),
    }
    assert_eq!(client.state(), ClientState::Handshake);
}

#[test]
fn handshake_to_status_is_allowed() {
    let mut client = Client::new(&offline_deterministic_config()).unwrap();
    let packet = handshake_packet(PROTOCOL_VERSION, "localhost", 25565, 1);
    assert!(client.handle_handshake(packet).is_ok());
    assert_eq!(client.state(), ClientState::Status);
}

#[test]
fn login_online_mode_is_unsupported() {
    let config = config_with(&[("server-host", "localhost")]);
    let mut client = Client::new(&config).unwrap();
    client.start().unwrap();
    let hs = handshake_packet(PROTOCOL_VERSION, "localhost", 25565, 2);
    assert!(client.handle_packet(hs).is_ok());
    match client.handle_packet(login_packet("Alice")) {
        Err(ClientError::Unsupported) => {}
        other => panic!("expected unsupported, got ok={:?}", other.is_ok()),
    }
    assert!(!client.running());
}

#[test]
fn login_unknown_packet_id() {
    let mut client = Client::new(&offline_deterministic_config()).unwrap();
    let hs = handshake_packet(PROTOCOL_VERSION, "localhost", 25565, 2);
    assert!(client.handle_handshake(hs).is_ok());
    let packet = MCPacket::new(0x01);
    match client.handle_login(packet) {
        Err(ClientError::InvalidPacketID(id)) => assert_eq!(id, 0x01),
        other => panic!("expected invalid packet id, got ok={:?}", other.is_ok()),
    }
}

#[test]
fn end_to_end_offline_deterministic_login() {
    let mut client = Client::new(&offline_deterministic_config()).unwrap();
    client.start().unwrap();

    let hs = handshake_packet(PROTOCOL_VERSION, "localhost", 25565, 2);
    let hs_reply = client.handle_packet(hs).expect("handshake succeeds");
    assert!(hs_reply.is_none(), "the handshake has no response packet");
    assert_eq!(client.state(), ClientState::Login);

    let reply = client.handle_packet(login_packet("Alice")).expect("login succeeds");
    let wire = reply.expect("login emits exactly one response frame");
    assert_eq!(client.state(), ClientState::Play);
    assert_eq!(client.username(), "Alice");
    assert!(client.running());

    let mut buf = wire.clone();
    let mut response = MCPacket::parse(&mut buf).expect("the response is one whole frame");
    assert!(buf.is_empty(), "exactly one frame, nothing after it");
    assert_eq!(response.id, 0x02, "Login Success carries id 2");

    let expected_identity = md5::compute("Alice".as_bytes()).0;
    assert_eq!(&response.data[..16], &expected_identity[..], "fixed identity for Alice");
    response.data.drain(..16);
    let echoed = {
        let mut p = MCPacket {
            length: 0,
            id: 2,
            data: response.data,
        };
        p.read_string().expect("username echoes back")
    };
    assert_eq!(echoed, "Alice");
}

#[test]
fn identical_usernames_give_identical_identities() {
    let a = UUID::from_name("Alice");
    let b = UUID::from_name("Alice");
    assert_eq!(a.as_bytes(), b.as_bytes());
    assert_eq!(a.to_string(), b.to_string());

    let c = UUID::from_name("Bob");
    assert_ne!(a.as_bytes(), c.as_bytes());
}

#[test]
fn deterministic_identity_is_stable_across_sessions() {
    let identity_of = |name: &str| -> Vec<u8> {
        let mut client = Client::new(&offline_deterministic_config()).unwrap();
        let hs = handshake_packet(PROTOCOL_VERSION, "localhost", 25565, 2);
        client.handle_handshake(hs).unwrap();
        let wire = client.handle_login(login_packet(name)).unwrap().unwrap();
        let mut buf = wire;
        let packet = MCPacket::parse(&mut buf).unwrap();
        packet.data[..16].to_vec()
    };
    assert_eq!(identity_of("Alice"), identity_of("Alice"));
    assert_ne!(identity_of("Alice"), identity_of("alice"));
}

#[test]
fn random_identities_are_distinct() {
    let mut seen: Vec<[u8; 16]> = Vec::new();
    for _ in 0..1000 {
        seen.push(*UUID::new_rand().as_bytes());
    }
    seen.sort();
    for window in seen.windows(2) {
        assert_ne!(window[0], window[1], "random identities must not collide");
    }
}

#[test]
fn packets_in_states_without_handlers_are_rejected() {
    let mut client = Client::new(&offline_deterministic_config()).unwrap();
    client.start().unwrap();
    let hs = handshake_packet(PROTOCOL_VERSION, "localhost", 25565, 2);
    client.handle_packet(hs).unwrap();
    client.handle_packet(login_packet("Alice")).unwrap();
    assert_eq!(client.state(), ClientState::Play);

    match client.handle_packet(MCPacket::new(0x00)) {
        Err(ClientError::InvalidPacketID(0)) => {}
        other => panic!("expected invalid packet id, got ok={:?}", other.is_ok()),
    }
    assert!(!client.running());
}

#[test]
fn uuid_to_string_format() {
    let bytes: [u8; 16] = [
        0x00, 0x11, 0x22, 0x33, 0x44, 0x55, 0x66, 0x77, 0x88, 0x99, 0xAA, 0xBB, 0xCC, 0xDD, 0xEE,
        0xFF,
    ];
    let uuid = UUID::from_bytes(&bytes);
    assert_eq!(uuid.to_string(), "00112233-4455-6677-8899-aabbccddeeff");
    assert_eq!(uuid.as_bytes(), &bytes);
}

#[test]
fn client_state_from_i32_table() {
    assert_eq!(ClientState::from_i32(0), Some(ClientState::Handshake));
    assert_eq!(ClientState::from_i32(1), Some(ClientState::Status));
    assert_eq!(ClientState::from_i32(2), Some(ClientState::Login));
    assert_eq!(ClientState::from_i32(3), Some(ClientState::Configuration));
    assert_eq!(ClientState::from_i32(4), Some(ClientState::Play));
    assert_eq!(ClientState::from_i32(5), None);
    assert_eq!(ClientState::from_i32(-1), None);
}

#[test]
fn bind_target_reads_host_and_port() {
    let config = offline_deterministic_config();
    let (host, port) = bind_target(&config).unwrap();
    assert_eq!(host, "localhost");
    assert_eq!(port, 25565);
}

#[test]
fn bind_target_reports_missing_keys() {
    match bind_target(&config_with(&[("server-port", "25565")])) {
        Err(ServerError::MissingProperty(k)) => assert_eq!(k, "server-host"),
        other => panic!("expected missing host, got ok={:?}", other.is_ok()),
    }
    match bind_target(&config_with(&[("server-host", "localhost")])) {
        Err(ServerError::MissingProperty(k)) => assert_eq!(k, "server-port"),
        other => panic!("expected missing port, got ok={:?}", other.is_ok()),
    }
    match bind_target(&config_with(&[("server-host", "h"), ("server-port", "not-a-port")])) {
        Err(ServerError::MissingProperty(k)) => assert_eq!(k, "server-port"),
        other => panic!("expected unusable port, got ok={:?}", other.is_ok()),
    }
}

#[test]
fn parse_u16_accepts_only_decimal_ports() {
    assert_eq!(parse_u16("0"), Some(0));
    assert_eq!(parse_u16("25565"), Some(25565));
    assert_eq!(parse_u16("65535"), Some(65535));
    assert_eq!(parse_u16("00080"), Some(80));
    assert_eq!(parse_u16("65536"), None);
    assert_eq!(parse_u16("99999999"), None);
    assert_eq!(parse_u16(""), None);
    assert_eq!(parse_u16("12a"), None);
    assert_eq!(parse_u16("-1"), None);
    assert_eq!(parse_u16(" 80"), None);
}
