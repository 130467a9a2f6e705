//! The per-connection session: the current protocol state, the player
//! profile, and the handlers that interpret packets under the state
//! machine's table. Transport reads and writes live outside the library;
//! a session consumes decoded packets and hands response bytes back.

use vstd::prelude::*;

use crate::client_state::ClientState;
use crate::config::IdentityPolicy;
use crate::config::PROTOCOL_VERSION;
use crate::config::ServerConfig;
use crate::config::lookup;
use crate::errors::ClientError;
use crate::errors::PacketError;
use crate::errors::ServerError;
use crate::mc_packet::MCPacket;
use crate::mc_packet::spec_frame;
use crate::player::Player;
use crate::util::spec_encode_string;
use crate::util::u32_bits_of_i32;
use crate::util::vbytes;
use crate::util::spec_read_string;
use crate::util::spec_read_u16;
use crate::util::spec_read_varint;
use crate::uuid::UUID;
use crate::uuid::md5_digest_of;
use vstd::string::StringExecFns;
use vstd::utf8::decode_utf8;
use vstd::utf8::encode_utf8;
use vstd::utf8::valid_utf8;

verus! {

/// What the handshake handler decides for a given packet, before any of the
/// session's own bookkeeping. Fields are read in wire order; then the host,
/// the protocol version and the requested state are checked in that order,
/// so a wrong host is rejected whatever the requested state says.
pub enum HandshakeDecision {
    /// The handshake is well-formed: advance to the requested state.
    Advance(ClientState),
    /// The packet id is not in the handshake state's table.
    BadPacketId(i32),
    /// A field could not be read from the payload.
    Decode(PacketError),
    /// The named server host is not the configured one.
    BadHost(Seq<char>),
    /// The client speaks another protocol version.
    BadVersion(i32),
    /// The requested next state is neither status nor login.
    BadNextState(i32),
}

/// The handshake table has one entry, id zero, whose fields are
/// `protocol_version`, `server_address`, `server_port`, `next_state`.
pub open spec fn spec_handshake(host: Seq<char>, id: i32, payload: Seq<u8>) -> HandshakeDecision {
    if id != 0 {
        HandshakeDecision::BadPacketId(id)
    } else {
        match spec_read_varint(payload) {
            Err(e) => HandshakeDecision::Decode(e),
            Ok((prot, k1)) => match spec_read_string(payload.skip(k1)) {
                Err(e) => HandshakeDecision::Decode(e),
                Ok((server_host, k2)) => match spec_read_u16(payload.skip(k1).skip(k2)) {
                    Err(e) => HandshakeDecision::Decode(e),
                    Ok((_port, k3)) => match spec_read_varint(payload.skip(k1).skip(k2).skip(k3)) {
                        Err(e) => HandshakeDecision::Decode(e),
                        Ok((next, _)) => if server_host != host {
                            HandshakeDecision::BadHost(server_host)
                        } else if prot != PROTOCOL_VERSION {
                            HandshakeDecision::BadVersion(prot)
                        } else if next == 1 {
                            HandshakeDecision::Advance(ClientState::Status)
                        } else if next == 2 {
                            HandshakeDecision::Advance(ClientState::Login)
                        } else {
                            HandshakeDecision::BadNextState(next)
                        },
                    },
                },
            },
        }
    }
}

/// The error a handshake decision turns into at the session boundary.
pub open spec fn matches_handshake_err(d: HandshakeDecision, e: ClientError) -> bool {
    match d {
        HandshakeDecision::Advance(_) => false,
        HandshakeDecision::BadPacketId(i) => e matches ClientError::InvalidPacketID(i2) && i2 == i,
        HandshakeDecision::Decode(pe) => e matches ClientError::PacketError(pe2) && pe2 == pe,
        HandshakeDecision::BadHost(h) => e matches ClientError::IncorrectHost(s) && s@ == h,
        HandshakeDecision::BadVersion(p) => e matches ClientError::InvalidProtocolVersion(a, b)
            && a == p && b == PROTOCOL_VERSION,
        HandshakeDecision::BadNextState(n) => e matches ClientError::InvalidStateTransition(m)
            && m == n,
    }
}

/// What the login handler decides for a given packet. The one recognized id
/// is zero, Login Start, whose single field is the username.
pub enum LoginDecision {
    /// The packet id is not in the login state's table.
    BadPacketId(i32),
    /// The payload is too large for any response frame to echo.
    Oversize,
    /// The username could not be read from the payload.
    Decode(PacketError),
    /// Online mode needs an external identity authority.
    Online,
    /// Offline login with this username succeeds.
    Offline(Seq<char>),
}

/// The largest login payload a session accepts; anything larger could not
/// be echoed inside a single response frame.
pub open spec fn max_login_payload() -> int {
    0x7FFF_0000
}

/// The login table has one entry, id zero.
pub open spec fn spec_login(online: bool, id: i32, payload: Seq<u8>) -> LoginDecision {
    if id != 0 {
        LoginDecision::BadPacketId(id)
    } else if payload.len() > max_login_payload() {
        LoginDecision::Oversize
    } else {
        match spec_read_string(payload) {
            Err(e) => LoginDecision::Decode(e),
            Ok((u, _)) => if online {
                LoginDecision::Online
            } else {
                LoginDecision::Offline(u)
            },
        }
    }
}

/// The error a login decision turns into at the session boundary.
pub open spec fn matches_login_err(d: LoginDecision, e: ClientError) -> bool {
    match d {
        LoginDecision::BadPacketId(i) => e matches ClientError::InvalidPacketID(i2) && i2 == i,
        LoginDecision::Oversize => e == ClientError::PacketError(PacketError::Malformed),
        LoginDecision::Decode(pe) => e matches ClientError::PacketError(pe2) && pe2 == pe,
        LoginDecision::Online => e == ClientError::Unsupported,
        LoginDecision::Offline(_) => false,
    }
}

/// The observable session state: protocol phase, configured host, profile,
/// the configuration bits login depends on, and the running flag.
#[verifier::ext_equal]
pub struct ClientModel {
    /// The current protocol phase.
    pub state: ClientState,
    /// The host clients must name in their handshake.
    pub host: Seq<char>,
    /// The profile's username; empty before login.
    pub username: Seq<char>,
    /// The profile's identity bytes; absent before login.
    pub uuid: Option<Seq<u8>>,
    /// Whether an external identity authority must confirm logins.
    pub online: bool,
    /// How offline identities are assigned.
    pub policy: IdentityPolicy,
    /// Whether the session loop is running.
    pub running: bool,
}

/// A successful offline login: the state advances to play, the profile
/// carries the username and a sixteen-byte identity, and the response is
/// one Login Success frame (id 2) holding that identity and the username.
/// Under the name-derived policy the identity is the username's digest.
pub open spec fn login_success(
    m0: ClientModel,
    m1: ClientModel,
    u: Seq<char>,
    resp: Seq<u8>,
) -> bool {
    &&& m1.state == ClientState::Play
    &&& m1.username == u
    &&& m1.host == m0.host
    &&& m1.online == m0.online
    &&& m1.policy == m0.policy
    &&& m1.running == m0.running
    &&& match m1.uuid {
        Some(ub) => {
            &&& ub.len() == 16
            &&& resp == spec_frame(2, ub + spec_encode_string(u))
            &&& (m0.policy == IdentityPolicy::NameDerived ==> ub == md5_digest_of(u))
        },
        None => false,
    }
}

/// One server-side connection session.
pub struct Client {
    state: ClientState,
    player: Player,
    host: String,
    online: bool,
    policy: IdentityPolicy,
    is_running: bool,
}

impl View for Client {
    type V = ClientModel;

    closed spec fn view(&self) -> ClientModel {
        ClientModel {
            state: self.state,
            host: self.host@,
            username: self.player.username@,
            uuid: match self.player.uuid {
                Some(u) => Some(u@),
                None => None,
            },
            online: self.online,
            policy: self.policy,
            running: self.is_running,
        }
    }
}

impl Client {
    /// Creates a new instance
    ///
    /// The configured host is required here, at session construction, so
    /// that the handshake handler always has something to check against.
    pub fn new(config: &ServerConfig) -> (r: Result<Client, ServerError>)
        ensures
            match lookup(config.entries@, "server-host"@) {
                Some(h) => r matches Ok(c) && c@ == (ClientModel {
                    state: ClientState::Handshake,
                    host: h,
                    username: Seq::empty(),
                    uuid: None,
                    online: config.spec_online(),
                    policy: config.spec_identity_policy(),
                    running: false,
                }),
                None => r matches Err(ServerError::MissingProperty(k)) && k@ == "server-host"@,
            },
    {
        let host = match config.get("server-host") {
            Some(h) => h.clone(),
            None => {
                return Err(ServerError::MissingProperty(String::from_str("server-host")));
            },
        };
        let online = config.online_mode();
        let policy = config.identity_policy();
        Ok(
            Client {
                state: ClientState::Handshake,
                player: Player::default(),
                host,
                online,
                policy,
                is_running: false,
            },
        )
    }

    /// The current protocol phase.
    pub fn state(&self) -> (r: ClientState)
        ensures
            r == self@.state,
    {
        self.state
    }

    /// Whether the session loop is running.
    pub fn running(&self) -> (r: bool)
        ensures
            r == self@.running,
    {
        self.is_running
    }

    /// The profile's username; empty before login.
    pub fn username(&self) -> (r: &String)
        ensures
            r@ == self@.username,
    {
        &self.player.username
    }

    /// The profile's identity, once login assigned one.
    pub fn identity(&self) -> (r: &Option<UUID>)
        ensures
            match r {
                Some(u) => self@.uuid == Some(u@),
                None => self@.uuid is None,
            },
    {
        &self.player.uuid
    }

    /// Marks the session as started; a session that is already running is
    /// not restarted but reported.
    pub fn start(&mut self) -> (r: Result<(), ClientError>)
        ensures
            old(self)@.running ==> (r matches Err(ClientError::AlreadyRunning)) && final(self)@
                == old(self)@,
            !old(self)@.running ==> r is Ok && final(self)@ == (ClientModel {
                running: true,
                ..old(self)@
            }),
    {
        if self.is_running {
            return Err(ClientError::AlreadyRunning);
        }
        self.is_running = true;
        Ok(())
    }

    /// Closes the connection between the server and client.
    /// Stopping an already-stopped session changes nothing.
    pub fn close(&mut self)
        ensures
            final(self)@ == (ClientModel { running: false, ..old(self)@ }),
    {
        self.is_running = false;
    }

    /// Handle handshaking
    pub fn handle_handshake(&mut self, packet: MCPacket) -> (r: Result<(), ClientError>)
        ensures
            match spec_handshake(old(self)@.host, packet.id, packet.data@) {
                HandshakeDecision::Advance(st) => r is Ok && final(self)@ == (ClientModel {
                    state: st,
                    ..old(self)@
                }),
                d => (r matches Err(e) && matches_handshake_err(d, e)) && final(self)@ == old(
                    self,
                )@,
            },
    {
        let mut packet = packet;
        if packet.id != 0 {
            return Err(ClientError::InvalidPacketID(packet.id));
        }
        let prot_ver = match packet.read_varint() {
            Ok(v) => v,
            Err(e) => {
                return Err(ClientError::PacketError(e));
            },
        };
        let server_host = match packet.read_string() {
            Ok(s) => s,
            Err(e) => {
                return Err(ClientError::PacketError(e));
            },
        };
        let _server_port = match packet.read_unsigned_short() {
            Ok(p) => p,
            Err(e) => {
                return Err(ClientError::PacketError(e));
            },
        };
        let next_state = match packet.read_varint() {
            Ok(v) => v,
            Err(e) => {
                return Err(ClientError::PacketError(e));
            },
        };
        if !(server_host == self.host) {
            return Err(ClientError::IncorrectHost(server_host));
        }
        if prot_ver != PROTOCOL_VERSION {
            return Err(ClientError::InvalidProtocolVersion(prot_ver, PROTOCOL_VERSION));
        }
        if next_state == 1 {
            self.state = ClientState::Status;
            Ok(())
        } else if next_state == 2 {
            self.state = ClientState::Login;
            Ok(())
        } else {
            Err(ClientError::InvalidStateTransition(next_state))
        }
    }

    /// Handle the Login process
    pub fn handle_login(&mut self, packet: MCPacket) -> (r: Result<Option<Vec<u8>>, ClientError>)
        ensures
            match spec_login(old(self)@.online, packet.id, packet.data@) {
                LoginDecision::Offline(u) => r matches Ok(o) && o matches Some(resp)
                    && login_success(old(self)@, final(self)@, u, resp@),
                d => (r matches Err(e) && matches_login_err(d, e)) && final(self)@ == old(self)@,
            },
    {
        if packet.id != 0 {
            return Err(ClientError::InvalidPacketID(packet.id));
        }
        if packet.data.len() > 0x7FFF_0000 {
            return Err(ClientError::PacketError(PacketError::Malformed));
        }
        let ghost d0 = packet.data@;
        let mut packet = packet;
        let username = match packet.read_string() {
            Ok(s) => s,
            Err(e) => {
                return Err(ClientError::PacketError(e));
            },
        };
        if self.online {
            return Err(ClientError::Unsupported);
        }
        proof {
            assert(spec_read_string(d0) is Ok);
            assert(spec_read_string(d0)->Ok_0.0 == username@);
            assert(spec_read_varint(d0) is Ok);
            crate::util::lemma_term_index(d0, 5);
            let (l, k1) = spec_read_varint(d0)->Ok_0;
            let region = d0.subrange(k1, k1 + l);
            assert(0 <= k1 <= d0.len());
            assert(0 <= l && d0.len() - k1 >= l);
            assert(valid_utf8(region));
            assert(username@ == decode_utf8(region));
            vstd::utf8::decode_utf8_encode_utf8(region);
            assert(encode_utf8(username@) == region);
            assert(encode_utf8(username@).len() == l);
            assert(l <= 0x7FFF_0000);
            crate::util::lemma_varint_round_trip(l as i32, Seq::<u8>::empty());
            assert(u32_bits_of_i32(l as i32) == l as nat);
            assert(vbytes(l as nat).len() <= 5);
            assert(spec_encode_string(username@).len() <= 5 + 0x7FFF_0000);
        }
        let uuid = match self.policy {
            IdentityPolicy::NameDerived => UUID::from_name(username.as_str()),
            IdentityPolicy::Random => UUID::new_rand(),
        };
        let mut response = MCPacket::new(0x02);
        response.write_uuid(&uuid);
        response.write_string(username.as_str());
        proof {
            assert(response.data@ =~= Seq::<u8>::empty() + uuid@ + spec_encode_string(username@));
            assert(uuid@.len() == 16);
            assert(spec_encode_string(username@).len() <= 5 + 0x7FFF_0000);
            assert(response.data@.len() <= 0x7FFF_FF00);
        }
        let response_bytes = response.finalize();
        proof {
            assert(response_bytes@ == spec_frame(2, uuid@ + spec_encode_string(username@))) by {
                assert(Seq::<u8>::empty() + uuid@ + spec_encode_string(username@) =~= uuid@
                    + spec_encode_string(username@));
            }
        }
        self.player.username = username;
        self.player.uuid = Some(uuid);
        self.state = ClientState::Play;
        Ok(Some(response_bytes))
    }

    /// Dispatches one decoded packet through the current state's table.
    /// A handler error, or a packet in a state whose table is empty, closes
    /// the session and is reported to the caller; it never unwinds.
    pub fn handle_packet(&mut self, packet: MCPacket) -> (r: Result<Option<Vec<u8>>, ClientError>)
        ensures
            match old(self)@.state {
                ClientState::Handshake => match spec_handshake(
                    old(self)@.host,
                    packet.id,
                    packet.data@,
                ) {
                    HandshakeDecision::Advance(st) => r matches Ok(o) && o is None && final(self)@
                        == (ClientModel { state: st, ..old(self)@ }),
                    d => (r matches Err(e) && matches_handshake_err(d, e)) && final(self)@
                        == (ClientModel { running: false, ..old(self)@ }),
                },
                ClientState::Login => match spec_login(old(self)@.online, packet.id, packet.data@) {
                    LoginDecision::Offline(u) => r matches Ok(o) && o matches Some(resp)
                        && login_success(old(self)@, final(self)@, u, resp@),
                    d => (r matches Err(e) && matches_login_err(d, e)) && final(self)@
                        == (ClientModel { running: false, ..old(self)@ }),
                },
                _ => (r matches Err(e) && e matches ClientError::InvalidPacketID(i) && i
                    == packet.id) && final(self)@ == (ClientModel {
                    running: false,
                    ..old(self)@
                }),
            },
    {
        let id = packet.id;
        match self.state {
            ClientState::Handshake => match self.handle_handshake(packet) {
                Ok(()) => Ok(None),
                Err(e) => {
                    self.close();
                    Err(e)
                },
            },
            ClientState::Login => match self.handle_login(packet) {
                Ok(o) => Ok(o),
                Err(e) => {
                    self.close();
                    Err(e)
                },
            },
            _ => {
                self.close();
                Err(ClientError::InvalidPacketID(id))
            },
        }
    }
}

} // verus!
