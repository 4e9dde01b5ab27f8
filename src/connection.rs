//! The connection: its phase, the entity id the server assigned, its
//! transport (plain, or wrapped in the stream cipher), and what it does on
//! each received packet.
//!
//! Reading frames and performing the actions is left to the caller; the
//! decisions are here.
use vstd::prelude::*;
use crate::auth::{session_hash, session_hash_text, sha1_of, session_input};
use crate::cipher::EncryptedStream;
use crate::codec::string_fits;
use crate::crypto::{
    encrypt_with_server_pubkey, generate_shared_secret, der_public_key, rsa_modulus_bytes, pkcs1v15_seals,
    rsa_encryption_ok,
};
use crate::error::ProtocolError;
use crate::fields::{FieldValue, FieldView};
use crate::packets::{ClientPacket, ServerPacket, fields_view};
use crate::schema::{ClientPacketKind, ServerPacketKind};

verus! {

/// The phase a connection is in.
#[derive(Clone, Copy, Debug, PartialEq, Eq, Structural)]
pub enum ConnectionState {
    Handshaking,
    Login,
    Status,
    Play,
}

/// Phases in the order a connection goes through them.
pub open spec fn state_rank(s: ConnectionState) -> nat {
    match s {
        ConnectionState::Handshaking => 0,
        ConnectionState::Status => 1,
        ConnectionState::Login => 1,
        ConnectionState::Play => 2,
    }
}

/// The protocol version this client speaks.
pub const PROTOCOL_VERSION: i32 = 5;

/// What the caller must do after a packet, in order.
#[derive(Debug)]
pub enum Action {
    /// Write this packet on the current transport.
    Send(ClientPacket),
    /// Switch the transport to the stream cipher with this shared secret.
    EnableEncryption(Vec<u8>),
    /// Join the session with this server hash.
    JoinSession(String),
    /// The server ended the login, for this reason.
    Disconnected(String),
}

/// The mathematical value of an action.
pub enum ActionView {
    Send(ClientPacketKind, Seq<FieldView>),
    EnableEncryption(Seq<u8>),
    JoinSession(Seq<char>),
    Disconnected(Seq<char>),
}

impl View for Action {
    type V = ActionView;

    open spec fn view(&self) -> ActionView {
        match self {
            Action::Send(p) => ActionView::Send(p.kind, fields_view(p.fields@)),
            Action::EnableEncryption(k) => ActionView::EnableEncryption(k@),
            Action::JoinSession(h) => ActionView::JoinSession(h@),
            Action::Disconnected(r) => ActionView::Disconnected(r@),
        }
    }
}

pub open spec fn actions_view(v: Seq<Action>) -> Seq<ActionView> {
    v.map_values(|a: Action| a@)
}

/// The channel of the mod-loader handshake.
pub open spec fn fml_channel() -> Seq<char> {
    seq!['F', 'M', 'L', '|', 'H', 'S']
}

pub open spec fn en_us() -> Seq<char> {
    seq!['e', 'n', '_', 'U', 'S']
}

proof fn lemma_ascii_fits(cs: Seq<char>)
    requires
        vstd::utf8::is_ascii_chars(cs),
        cs.len() <= 16,
    ensures
        string_fits(cs),
{
    vstd::utf8::is_ascii_chars_encode_utf8(cs);
}

/// The phase after a packet of this kind: login success enters play.
pub open spec fn next_state(state: ConnectionState, kind: ServerPacketKind) -> ConnectionState {
    if kind == ServerPacketKind::LoginSuccess { ConnectionState::Play } else { state }
}

/// The entity id after a packet: join-game assigns it.
pub open spec fn next_entity_id(entity_id: Option<i32>, kind: ServerPacketKind, vs: Seq<FieldView>) -> Option<i32> {
    if kind == ServerPacketKind::JoinGame && vs.len() >= 1 && vs[0] is Int {
        Some(vs[0]->Int_0)
    } else {
        entity_id
    }
}

/// What the client answers to a packet other than an encryption request.
pub open spec fn reaction(kind: ServerPacketKind, vs: Seq<FieldView>) -> Seq<ActionView> {
    if kind == ServerPacketKind::LoginDisconnect && vs.len() >= 1 && vs[0] is Text {
        seq![ActionView::Disconnected(vs[0]->Text_0)]
    } else if kind == ServerPacketKind::KeepAlive && vs.len() >= 1 && vs[0] is Int {
        seq![ActionView::Send(ClientPacketKind::KeepAlive, seq![FieldView::Int(vs[0]->Int_0)])]
    } else if kind == ServerPacketKind::JoinGame && vs.len() >= 1 && vs[0] is Int {
        seq![
            ActionView::Send(
                ClientPacketKind::ClientSettings,
                seq![
                    FieldView::Text(en_us()),
                    FieldView::Byte(10),
                    FieldView::Byte(1),
                    FieldView::Boolean(true),
                    FieldView::Byte(0),
                    FieldView::Boolean(true),
                ],
            ),
            ActionView::Send(ClientPacketKind::ClientStatus, seq![FieldView::VarInt(0)]),
        ]
    } else if kind == ServerPacketKind::CustomPayload && vs.len() >= 1 && vs[0] is Text && vs[0]->Text_0
        == fml_channel() {
        seq![
            ActionView::Send(
                ClientPacketKind::CustomPayload,
                seq![FieldView::Text(fml_channel()), FieldView::BytesShort(seq![0u8])],
            ),
        ]
    } else {
        Seq::empty()
    }
}

/// The answer to an encryption request from `server_id` with `public_key`,
/// given the shared secret and the two ciphertexts: send them, switch on the
/// cipher, join the session.
pub open spec fn encryption_reaction(
    server_id: Seq<char>,
    public_key: Seq<u8>,
    secret: Seq<u8>,
    encrypted_secret: Seq<u8>,
    encrypted_token: Seq<u8>,
) -> Seq<ActionView> {
    seq![
        ActionView::Send(
            ClientPacketKind::EncryptionResponse,
            seq![FieldView::BytesShort(encrypted_secret), FieldView::BytesShort(encrypted_token)],
        ),
        ActionView::EnableEncryption(secret),
        ActionView::JoinSession(session_hash_text(sha1_of(session_input(server_id, secret, public_key)))),
    ]
}

/// The outcome of answering an encryption request with this shared secret.
/// A key that does not parse, whose modulus is under 27 bytes (the secret
/// and the padding) or over 32767 (the 16-bit length prefix), or too small
/// for the token, is a crypto failure. Otherwise the answer succeeds, and the
/// two ciphertexts, as long as the modulus, seal the secret and the token.
pub open spec fn encryption_answer(
    server_id: Seq<char>,
    public_key: Seq<u8>,
    verify_token: Seq<u8>,
    secret: Seq<u8>,
    r: Result<Vec<Action>, ProtocolError>,
) -> bool {
    match der_public_key(public_key) {
        None => r == Err::<Vec<Action>, ProtocolError>(ProtocolError::CryptoFailure),
        Some(k) => {
            let n = rsa_modulus_bytes(k);
            if 27 <= n <= 0x7fff && verify_token.len() + 11 <= n {
                r matches Ok(acts) && exists|es: Seq<u8>, et: Seq<u8>|
                    es.len() == n && et.len() == n && pkcs1v15_seals(k, secret, es) && pkcs1v15_seals(
                        k,
                        verify_token,
                        et,
                    ) && #[trigger] actions_view(acts@) == encryption_reaction(
                        server_id,
                        public_key,
                        secret,
                        es,
                        et,
                    )
            } else {
                r == Err::<Vec<Action>, ProtocolError>(ProtocolError::CryptoFailure)
            }
        },
    }
}

/// The actions that answer an encryption request, from the shared secret and
/// the ciphertexts of the secret and the verify token; ciphertexts too long
/// for their 16-bit length prefix are a crypto failure.
pub fn encryption_actions(
    server_id: &str,
    public_key: &[u8],
    secret: Vec<u8>,
    encrypted_secret: Vec<u8>,
    encrypted_token: Vec<u8>,
) -> (r: Result<Vec<Action>, ProtocolError>)
    ensures
        (encrypted_secret@.len() <= i16::MAX && encrypted_token@.len() <= i16::MAX) <==> r is Ok,
        r matches Ok(acts) ==> actions_view(acts@) == encryption_reaction(
            server_id@,
            public_key@,
            secret@,
            encrypted_secret@,
            encrypted_token@,
        ),
        r matches Err(e) ==> e == ProtocolError::CryptoFailure,
{
    if encrypted_secret.len() > 0x7fff || encrypted_token.len() > 0x7fff {
        return Err(ProtocolError::CryptoFailure);
    }
    let hash = session_hash(server_id, secret.as_slice(), public_key);
    let mut acts: Vec<Action> = Vec::new();
    acts.push(Action::Send(ClientPacket::encryption_response(encrypted_secret, encrypted_token)));
    acts.push(Action::EnableEncryption(secret));
    acts.push(Action::JoinSession(hash));
    assert(actions_view(acts@) =~= encryption_reaction(
        server_id@,
        public_key@,
        secret@,
        encrypted_secret@,
        encrypted_token@,
    ));
    Ok(acts)
}

/// How the connection reaches the server.
pub enum Transport<S> {
    Plain(S),
    Encrypted(EncryptedStream<S>),
    Closed,
}

/// One connection to a server.
pub struct Connection<S> {
    pub state: ConnectionState,
    pub entity_id: Option<i32>,
    pub transport: Transport<S>,
}

impl<S> Connection<S> {
    /// A new connection over a plain transport, in the handshaking phase.
    pub fn new(stream: S) -> (r: Connection<S>)
        ensures
            r.state == ConnectionState::Handshaking,
            r.entity_id is None,
            r.transport == Transport::Plain(stream),
    {
        Connection { state: ConnectionState::Handshaking, entity_id: None, transport: Transport::Plain(stream) }
    }

    /// The handshake that moves the connection to `next` (status or login),
    /// and the move itself.
    pub fn handshake(&mut self, server_address: &str, server_port: u16, next: ConnectionState) -> (r: ClientPacket)
        requires
            old(self).state == ConnectionState::Handshaking,
            next == ConnectionState::Status || next == ConnectionState::Login,
            string_fits(server_address@),
        ensures
            final(self).state == next,
            final(self).entity_id == old(self).entity_id,
            final(self).transport == old(self).transport,
            r.well_formed(),
            r.kind == ClientPacketKind::Handshake,
            fields_view(r.fields@) == seq![
                FieldView::VarInt(PROTOCOL_VERSION),
                FieldView::Text(server_address@),
                FieldView::UShort(server_port),
                FieldView::VarInt(if next == ConnectionState::Status { 1 } else { 2 }),
            ],
    {
        let next_id: i32 = if next == ConnectionState::Status { 1 } else { 2 };
        self.state = next;
        ClientPacket::handshake(PROTOCOL_VERSION, server_address, server_port, next_id)
    }

    /// The packets that open a login — a handshake asking for the login
    /// phase, then the player's name — and the move to that phase.
    pub fn start_login(&mut self, server_address: &str, server_port: u16, username: &str) -> (r: Vec<ClientPacket>)
        requires
            old(self).state == ConnectionState::Handshaking,
            string_fits(server_address@),
            string_fits(username@),
        ensures
            final(self).state == ConnectionState::Login,
            final(self).entity_id == old(self).entity_id,
            final(self).transport == old(self).transport,
            r@.len() == 2,
            r@[0].well_formed() && r@[1].well_formed(),
            r@[0].kind == ClientPacketKind::Handshake,
            fields_view(r@[0].fields@) == seq![
                FieldView::VarInt(PROTOCOL_VERSION),
                FieldView::Text(server_address@),
                FieldView::UShort(server_port),
                FieldView::VarInt(2),
            ],
            r@[1].kind == ClientPacketKind::LoginStart,
            fields_view(r@[1].fields@) == seq![FieldView::Text(username@)],
    {
        let mut out: Vec<ClientPacket> = Vec::new();
        out.push(self.handshake(server_address, server_port, ConnectionState::Login));
        out.push(ClientPacket::login_start(username));
        out
    }

    /// Answers an encryption request from `server_id` with the DER public key
    /// `public_key` and the verify token, given the shared secret drawn for
    /// it: the secret and the token are encrypted under the key, and the
    /// actions are those of `encryption_answer`.
    pub fn handle_encryption_request(server_id: &str, public_key: &[u8], verify_token: &[u8], secret: &[u8]) -> (r:
        Result<Vec<Action>, ProtocolError>)
        requires
            secret@.len() == 16,
        ensures
            encryption_answer(server_id@, public_key@, verify_token@, secret@, r),
    {
        let encrypted_secret = encrypt_with_server_pubkey(secret, public_key);
        assert(rsa_encryption_ok(public_key@, secret@, encrypted_secret));
        let encrypted_secret = encrypted_secret?;
        let encrypted_token = encrypt_with_server_pubkey(verify_token, public_key);
        assert(rsa_encryption_ok(public_key@, verify_token@, encrypted_token));
        let encrypted_token = encrypted_token?;
        let ghost (es, et) = (encrypted_secret@, encrypted_token@);
        let res = encryption_actions(
            server_id,
            public_key,
            vstd::slice::slice_to_vec(secret),
            encrypted_secret,
            encrypted_token,
        );
        proof {
            if res is Ok {
                let k = der_public_key(public_key@)->Some_0;
                assert(es.len() == rsa_modulus_bytes(k) && et.len() == rsa_modulus_bytes(k)
                    && pkcs1v15_seals(k, secret@, es) && pkcs1v15_seals(k, verify_token@, et)
                    && actions_view(res->Ok_0@) == encryption_reaction(server_id@, public_key@, secret@, es, et));
            }
        }
        res
    }

    /// Applies a received packet: the phase and entity id change as
    /// `next_state` and `next_entity_id` say, and the actions are those of
    /// `reaction`. An encryption request draws a 16-byte shared secret and
    /// answers as `handle_encryption_request` does for it; drawing the secret
    /// may fail, which is a crypto failure.
    pub fn handle_packet(&mut self, packet: &ServerPacket) -> (r: Result<Vec<Action>, ProtocolError>)
        ensures
            final(self).transport == old(self).transport,
            final(self).state == next_state(old(self).state, packet.kind),
            state_rank(final(self).state) >= state_rank(old(self).state),
            old(self).state == ConnectionState::Play ==> final(self).state == ConnectionState::Play,
            final(self).entity_id == next_entity_id(old(self).entity_id, packet.kind, fields_view(packet.fields@)),
            ({
                let vs = fields_view(packet.fields@);
                if packet.kind == ServerPacketKind::EncryptionRequest && vs.len() >= 3 && vs[0] is Text
                    && vs[1] is BytesShort && vs[2] is BytesShort {
                    r == Err::<Vec<Action>, ProtocolError>(ProtocolError::CryptoFailure) || exists|secret: Seq<u8>|
                        secret.len() == 16 && #[trigger] encryption_answer(
                            vs[0]->Text_0,
                            vs[1]->BytesShort_0,
                            vs[2]->BytesShort_0,
                            secret,
                            r,
                        )
                } else {
                    r matches Ok(acts) && actions_view(acts@) == reaction(packet.kind, vs)
                }
            }),
    {
        let ghost vs = fields_view(packet.fields@);
        let n = packet.fields.len();
        proof {
            if n >= 1 {
                assert(vs[0] == packet.fields@[0]@);
            }
            if n >= 3 {
                assert(vs[1] == packet.fields@[1]@);
                assert(vs[2] == packet.fields@[2]@);
            }
        }
        match packet.kind {
            ServerPacketKind::LoginSuccess => {
                self.state = ConnectionState::Play;
            },
            ServerPacketKind::JoinGame => {
                if n >= 1 {
                    if let FieldValue::Int(id) = &packet.fields[0] {
                        self.entity_id = Some(*id);
                    }
                }
            },
            _ => {},
        }
        let mut acts: Vec<Action> = Vec::new();
        match packet.kind {
            ServerPacketKind::EncryptionRequest => {
                if n >= 3 {
                    if let (FieldValue::Text(server_id), FieldValue::BytesShort(public_key), FieldValue::BytesShort(token)) = (
                        &packet.fields[0],
                        &packet.fields[1],
                        &packet.fields[2],
                    ) {
                        let secret = generate_shared_secret()?;
                        assert(vs[0] == FieldView::Text(server_id@));
                        assert(vs[1] == FieldView::BytesShort(public_key@));
                        assert(vs[2] == FieldView::BytesShort(token@));
                        let res = Self::handle_encryption_request(
                            server_id.as_str(),
                            public_key.as_slice(),
                            token.as_slice(),
                            secret.as_slice(),
                        );
                        assert(encryption_answer(server_id@, public_key@, token@, secret@, res));
                        assert(encryption_answer(
                            vs[0]->Text_0,
                            vs[1]->BytesShort_0,
                            vs[2]->BytesShort_0,
                            secret@,
                            res,
                        ));
                        return res;
                    }
                }
            },
            ServerPacketKind::LoginDisconnect => {
                if n >= 1 {
                    if let FieldValue::Text(reason) = &packet.fields[0] {
                        acts.push(Action::Disconnected(reason.clone()));
                    }
                }
            },
            ServerPacketKind::KeepAlive => {
                if n >= 1 {
                    if let FieldValue::Int(id) = &packet.fields[0] {
                        acts.push(Action::Send(ClientPacket::keep_alive(*id)));
                    }
                }
            },
            ServerPacketKind::JoinGame => {
                if n >= 1 {
                    if let FieldValue::Int(_) = &packet.fields[0] {
                        proof {
                            reveal_strlit("en_US");
                            lemma_ascii_fits(en_us());
                        }
                        assert("en_US"@ == en_us());
                        acts.push(Action::Send(ClientPacket::client_settings("en_US", 10, 1, true, 0, true)));
                        acts.push(Action::Send(ClientPacket::client_status(0)));
                    }
                }
            },
            ServerPacketKind::CustomPayload => {
                if n >= 1 {
                    if let FieldValue::Text(channel) = &packet.fields[0] {
                        proof {
                            reveal_strlit("FML|HS");
                            lemma_ascii_fits(fml_channel());
                        }
                        assert("FML|HS"@ == fml_channel());
                        let fml: String = "FML|HS".to_owned();
                        if *channel == fml {
                            let mut data: Vec<u8> = Vec::new();
                            data.push(0u8);
                            acts.push(Action::Send(ClientPacket::custom_payload("FML|HS", data)));
                        }
                    }
                }
            },
            _ => {},
        }
        assert(actions_view(acts@) =~= reaction(packet.kind, vs));
        Ok(acts)
    }

    /// Switches a plain transport to the stream cipher keyed by `key`; the
    /// transport is moved into the cipher wrapper. Enabling twice is an error.
    pub fn enable_encryption(&mut self, key: &[u8]) -> (r: Result<(), ProtocolError>)
        ensures
            final(self).state == old(self).state,
            final(self).entity_id == old(self).entity_id,
            match old(self).transport {
                Transport::Plain(s) => if key@.len() == 16 {
                    r is Ok && (final(self).transport matches Transport::Encrypted(es) && es.inv() && es.secret()
                        == key@ && es.transport() == s && es.sent() == Seq::<u8>::empty() && es.received()
                        == Seq::<u8>::empty())
                } else {
                    r == Err::<(), ProtocolError>(ProtocolError::CryptoFailure) && final(self).transport == old(
                        self,
                    ).transport
                },
                Transport::Encrypted(_) => r == Err::<(), ProtocolError>(ProtocolError::AlreadyEncrypted)
                    && final(self).transport == old(self).transport,
                Transport::Closed => r == Err::<(), ProtocolError>(ProtocolError::ConnectionClosed)
                    && final(self).transport == old(self).transport,
            },
    {
        match &self.transport {
            Transport::Encrypted(_) => {
                return Err(ProtocolError::AlreadyEncrypted);
            },
            Transport::Closed => {
                return Err(ProtocolError::ConnectionClosed);
            },
            Transport::Plain(_) => {},
        }
        if key.len() != 16 {
            return Err(ProtocolError::CryptoFailure);
        }
        let mut taken: Transport<S> = Transport::Closed;
        std::mem::swap(&mut taken, &mut self.transport);
        match taken {
            Transport::Plain(s) => {
                match EncryptedStream::new(s, key) {
                    Ok(es) => {
                        self.transport = Transport::Encrypted(es);
                        Ok(())
                    },
                    Err(e) => Err(e),
                }
            },
            _ => Err(ProtocolError::ConnectionClosed),
        }
    }
}

} // verus!
