//! Packets as values, the frame decoder for received packets and the
//! encoder for sent ones.
//!
//! A frame is a variable-length byte count followed by that many bytes; the
//! payload starts with the packet id as a variable-length integer, followed
//! by the fields of the packet's schema in order.
use vstd::prelude::*;
use crate::codec::{
    Parsed, parse_varint, read_varint, write_varint, varint_bytes, take_bytes, append_bytes, string_fits,
    lemma_varint_round_trip,
};
use crate::connection::ConnectionState;
use crate::error::ProtocolError;
use crate::fields::{
    FieldKind, FieldValue, FieldView, parse_field, read_field, write_field, field_bytes, field_fits,
    kind_of, repeated_bytes,
};
use crate::schema::{ServerPacketKind, ClientPacketKind, spec_server_packet_kind, server_packet_kind};

verus! {

/// A packet received from the server.
#[derive(Clone, Debug)]
pub struct ServerPacket {
    pub kind: ServerPacketKind,
    pub fields: Vec<FieldValue>,
}

/// A packet the client sends.
#[derive(Clone, Debug)]
pub struct ClientPacket {
    pub kind: ClientPacketKind,
    pub fields: Vec<FieldValue>,
}

pub open spec fn fields_view(v: Seq<FieldValue>) -> Seq<FieldView> {
    v.map_values(|f: FieldValue| f@)
}

/// The fields of the given kinds, read one after another from `p`.
pub open spec fn parse_fields(kinds: Seq<FieldKind>, s: Seq<u8>, p: int) -> Parsed<Seq<FieldView>>
    decreases kinds.len(),
{
    if kinds.len() == 0 {
        Ok((Seq::empty(), p))
    } else {
        match parse_fields(kinds.drop_last(), s, p) {
            Err(e) => Err(e),
            Ok((vs, q)) => match parse_field(kinds.last(), s, q) {
                Err(e) => Err(e),
                Ok((v, q2)) => Ok((vs.push(v), q2)),
            },
        }
    }
}

proof fn lemma_fields_err(kinds: Seq<FieldKind>, s: Seq<u8>, p: int, i: int)
    requires
        0 <= i <= kinds.len(),
        parse_fields(kinds.subrange(0, i), s, p) is Err,
    ensures
        parse_fields(kinds, s, p) == parse_fields(kinds.subrange(0, i), s, p),
    decreases kinds.len(),
{
    if i == kinds.len() {
        assert(kinds.subrange(0, i) =~= kinds);
    } else {
        assert(kinds.drop_last().subrange(0, i) =~= kinds.subrange(0, i));
        lemma_fields_err(kinds.drop_last(), s, p, i);
    }
}

/// Reads the fields of the given kinds, in order, from `pos`.
pub fn read_fields(kinds: &Vec<FieldKind>, buf: &[u8], pos: usize) -> (r: Result<(Vec<FieldValue>, usize), ProtocolError>)
    ensures
        match parse_fields(kinds@, buf@, pos as int) {
            Ok((vs, q)) => r matches Ok((v2, q2)) && fields_view(v2@) == vs && q2 == q,
            Err(e) => r == Err::<(Vec<FieldValue>, usize), ProtocolError>(e),
        },
{
    let mut vals: Vec<FieldValue> = Vec::new();
    let mut q = pos;
    let mut i: usize = 0;
    assert(kinds@.subrange(0, 0) =~= Seq::<FieldKind>::empty());
    assert(fields_view(vals@) =~= Seq::<FieldView>::empty());
    while i < kinds.len()
        invariant
            i <= kinds@.len(),
            parse_fields(kinds@.subrange(0, i as int), buf@, pos as int) == Ok::<(Seq<FieldView>, int), ProtocolError>(
                (fields_view(vals@), q as int),
            ),
        decreases kinds@.len() - i,
    {
        let ghost sub = kinds@.subrange(0, i as int + 1);
        assert(sub.drop_last() =~= kinds@.subrange(0, i as int));
        assert(sub.last() == kinds@[i as int]);
        match read_field(kinds[i], buf, q) {
            Ok((v, q2)) => {
                let ghost before = vals@;
                vals.push(v);
                assert(fields_view(vals@) =~= fields_view(before).push(vals@.last()@));
                q = q2;
            },
            Err(e) => {
                proof {
                    lemma_fields_err(kinds@, buf@, pos as int, i as int + 1);
                }
                return Err(e);
            },
        }
        i = i + 1;
    }
    assert(kinds@.subrange(0, kinds@.len() as int) =~= kinds@);
    Ok((vals, q))
}

/// What decoding one payload gives.
pub enum Decoded {
    /// A packet of a registered schema, with its fields.
    Packet(ServerPacketKind, Seq<FieldView>),
    /// An id that no schema of the state has, and the bytes after it.
    Unknown(i32, Seq<u8>),
    /// Any other failure.
    Failed(ProtocolError),
}

/// Decoding a payload received in `state`: read the id, look it up among the
/// packets of the state, read that packet's fields; bytes left over after
/// them are ignored. Only the login and play phases receive packets.
pub open spec fn decode_payload(s: Seq<u8>, state: ConnectionState) -> Decoded {
    match parse_varint(s, 0) {
        Err(e) => Decoded::Failed(e),
        Ok((id, q)) => if state != ConnectionState::Login && state != ConnectionState::Play {
            Decoded::Failed(ProtocolError::UnsupportedState)
        } else {
            match spec_server_packet_kind(state, id) {
                None => Decoded::Unknown(id, s.subrange(q, s.len() as int)),
                Some(k) => match parse_fields(k.spec_fields(), s, q) {
                    Err(e) => Decoded::Failed(e),
                    Ok((vs, _)) => Decoded::Packet(k, vs),
                },
            }
        },
    }
}

/// Relates a decoding result to the spec's outcome.
pub open spec fn decoded_as(r: Result<ServerPacket, ProtocolError>, d: Decoded) -> bool {
    match d {
        Decoded::Packet(k, vs) => r matches Ok(p) && p.kind == k && fields_view(p.fields@) == vs,
        Decoded::Unknown(id, data) => r matches Err(ProtocolError::UnknownPacketId { id: i2, data: d2 }) && i2
            == id && d2@ == data,
        Decoded::Failed(e) => r == Err::<ServerPacket, ProtocolError>(e),
    }
}

/// Decodes the payload of one frame received in `state`.
pub fn decode_packet(payload: &[u8], state: ConnectionState) -> (r: Result<ServerPacket, ProtocolError>)
    ensures
        decoded_as(r, decode_payload(payload@, state)),
{
    let (id, q) = read_varint(payload, 0)?;
    if state != ConnectionState::Login && state != ConnectionState::Play {
        return Err(ProtocolError::UnsupportedState);
    }
    match server_packet_kind(state, id) {
        None => {
            let data = vstd::slice::slice_to_vec(vstd::slice::slice_subrange(payload, q, payload.len()));
            Err(ProtocolError::UnknownPacketId { id, data })
        },
        Some(kind) => {
            let kinds = kind.fields();
            let (fields, _) = read_fields(&kinds, payload, q)?;
            Ok(ServerPacket { kind, fields })
        },
    }
}

/// A frame at the start of `s`: its payload and the position after it.
pub open spec fn parse_frame(s: Seq<u8>) -> Parsed<Seq<u8>> {
    match parse_varint(s, 0) {
        Err(e) => Err(e),
        Ok((n, q)) => take_bytes(s, q, n as int),
    }
}

/// Where the first frame of `buf` lies: the start and end of its payload.
pub fn frame_bounds(buf: &[u8]) -> (r: Result<(usize, usize), ProtocolError>)
    ensures
        match parse_frame(buf@) {
            Ok((payload, end)) => r matches Ok((start, e2)) && e2 == end && start <= e2 <= buf@.len()
                && buf@.subrange(start as int, e2 as int) == payload,
            Err(e) => r == Err::<(usize, usize), ProtocolError>(e),
        },
{
    let (n, q) = read_varint(buf, 0)?;
    if n < 0 {
        return Err(ProtocolError::InvalidEncoding);
    }
    if q > buf.len() || n as usize > buf.len() - q {
        return Err(ProtocolError::UnexpectedEnd);
    }
    Ok((q, q + n as usize))
}

/// Decodes the first frame of `buf`, received in `state`, and says how many
/// bytes it took.
pub fn read_server_packet_by_state(buf: &[u8], state: ConnectionState) -> (r: Result<(ServerPacket, usize), ProtocolError>)
    ensures
        match parse_frame(buf@) {
            Err(e) => r == Err::<(ServerPacket, usize), ProtocolError>(e),
            Ok((payload, end)) => decoded_as(
                match r {
                    Ok((p, _)) => Ok(p),
                    Err(e) => Err(e),
                },
                decode_payload(payload, state),
            ) && (r matches Ok((_, used)) ==> used == end),
        },
{
    let (start, end) = frame_bounds(buf)?;
    let payload = vstd::slice::slice_subrange(buf, start, end);
    match decode_packet(payload, state) {
        Ok(p) => Ok((p, end)),
        Err(e) => Err(e),
    }
}

/// The fields of a packet match its schema, kind by kind, and fit their
/// length prefixes.
pub open spec fn fields_fit_schema(vs: Seq<FieldView>, kinds: Seq<FieldKind>) -> bool {
    vs.len() == kinds.len() && forall|i: int| 0 <= i < vs.len() ==> kind_of(#[trigger] vs[i]) == kinds[i]
        && field_fits(vs[i])
}

pub open spec fn field_writer() -> spec_fn(FieldView) -> Seq<u8> {
    |v: FieldView| field_bytes(v)
}

/// The payload of a sent packet: its id, then its fields.
pub open spec fn client_payload(k: ClientPacketKind, vs: Seq<FieldView>) -> Seq<u8> {
    varint_bytes(k.spec_id()) + repeated_bytes(field_writer(), vs)
}

/// A payload behind its byte count.
pub open spec fn frame_bytes(payload: Seq<u8>) -> Seq<u8> {
    varint_bytes(payload.len() as i32) + payload
}

/// A frame read back gives its payload and ends where the frame ends,
/// whatever follows it.
pub proof fn lemma_frame_round_trip(payload: Seq<u8>, rest: Seq<u8>)
    requires
        payload.len() <= i32::MAX,
    ensures
        parse_frame(frame_bytes(payload) + rest) == Ok::<(Seq<u8>, int), ProtocolError>(
            (payload, frame_bytes(payload).len() as int),
        ),
{
    let s = frame_bytes(payload) + rest;
    let n = payload.len() as i32;
    lemma_varint_round_trip(n, Seq::empty(), payload + rest);
    assert(s =~= Seq::<u8>::empty() + varint_bytes(n) + (payload + rest));
    let q = varint_bytes(n).len() as int;
    assert(s.subrange(q, q + payload.len()) =~= payload);
}

impl ClientPacket {
    pub open spec fn well_formed(&self) -> bool {
        fields_fit_schema(fields_view(self.fields@), self.kind.spec_fields())
    }

    pub open spec fn payload(&self) -> Seq<u8> {
        client_payload(self.kind, fields_view(self.fields@))
    }
}

/// Encodes a packet the client sends as one frame; `None` when the payload
/// is too long for a frame's byte count.
pub fn encode_client_packet(p: &ClientPacket) -> (r: Option<Vec<u8>>)
    requires
        p.well_formed(),
    ensures
        match r {
            Some(v) => p.payload().len() <= i32::MAX && v@ == frame_bytes(p.payload()),
            None => p.payload().len() > i32::MAX,
        },
{
    let ghost views = fields_view(p.fields@);
    let mut payload: Vec<u8> = Vec::new();
    write_varint(&mut payload, p.kind.id());
    let ghost head = payload@;
    let mut i: usize = 0;
    assert(head =~= varint_bytes(p.kind.spec_id()));
    while i < p.fields.len()
        invariant
            i <= p.fields@.len(),
            views == fields_view(p.fields@),
            p.well_formed(),
            head == varint_bytes(p.kind.spec_id()),
            payload@ == head + repeated_bytes(field_writer(), views.subrange(0, i as int)),
        decreases p.fields@.len() - i,
    {
        assert(views.subrange(0, i as int + 1).drop_last() =~= views.subrange(0, i as int));
        assert(views[i as int] == p.fields@[i as int]@);
        assert(field_fits(views[i as int]));
        write_field(&mut payload, &p.fields[i]);
        i = i + 1;
        assert(payload@ =~= head + repeated_bytes(field_writer(), views.subrange(0, i as int)));
    }
    assert(views.subrange(0, views.len() as int) =~= views);
    if payload.len() > 0x7fff_ffff {
        return None;
    }
    let mut frame: Vec<u8> = Vec::new();
    write_varint(&mut frame, payload.len() as i32);
    append_bytes(&mut frame, payload.as_slice());
    assert(frame@ =~= frame_bytes(p.payload()));
    Some(frame)
}


impl ClientPacket {
    /// Opens the connection: protocol version, the address and port the
    /// client dialled, and the phase to go to (1 status, 2 login).
    pub fn handshake(protocol_version: i32, server_address: &str, server_port: u16, next_state: i32) -> (r: ClientPacket)
        requires
            string_fits(server_address@),
        ensures
            r.well_formed(),
            r.kind == ClientPacketKind::Handshake,
            fields_view(r.fields@) == seq![
                FieldView::VarInt(protocol_version),
                FieldView::Text(server_address@),
                FieldView::UShort(server_port),
                FieldView::VarInt(next_state),
            ],
    {
        let mut fields: Vec<FieldValue> = Vec::new();
        fields.push(FieldValue::VarInt(protocol_version));
        fields.push(FieldValue::Text(server_address.to_owned()));
        fields.push(FieldValue::UShort(server_port));
        fields.push(FieldValue::VarInt(next_state));
        let r = ClientPacket { kind: ClientPacketKind::Handshake, fields };
        assert(fields_view(r.fields@) =~= seq![
            FieldView::VarInt(protocol_version),
            FieldView::Text(server_address@),
            FieldView::UShort(server_port),
            FieldView::VarInt(next_state),
        ]);
        r
    }

    /// Starts the login with the player's name.
    pub fn login_start(name: &str) -> (r: ClientPacket)
        requires
            string_fits(name@),
        ensures
            r.well_formed(),
            r.kind == ClientPacketKind::LoginStart,
            fields_view(r.fields@) == seq![FieldView::Text(name@)],
    {
        let mut fields: Vec<FieldValue> = Vec::new();
        fields.push(FieldValue::Text(name.to_owned()));
        let r = ClientPacket { kind: ClientPacketKind::LoginStart, fields };
        assert(fields_view(r.fields@) =~= seq![FieldView::Text(name@)]);
        r
    }

    /// Answers an encryption request with the encrypted shared secret and
    /// the encrypted verify token.
    pub fn encryption_response(shared_secret: Vec<u8>, verify_token: Vec<u8>) -> (r: ClientPacket)
        requires
            shared_secret@.len() <= i16::MAX,
            verify_token@.len() <= i16::MAX,
        ensures
            r.well_formed(),
            r.kind == ClientPacketKind::EncryptionResponse,
            fields_view(r.fields@) == seq![
                FieldView::BytesShort(shared_secret@),
                FieldView::BytesShort(verify_token@),
            ],
    {
        let ghost a = shared_secret@;
        let ghost b = verify_token@;
        let mut fields: Vec<FieldValue> = Vec::new();
        fields.push(FieldValue::BytesShort(shared_secret));
        fields.push(FieldValue::BytesShort(verify_token));
        let r = ClientPacket { kind: ClientPacketKind::EncryptionResponse, fields };
        assert(fields_view(r.fields@) =~= seq![FieldView::BytesShort(a), FieldView::BytesShort(b)]);
        r
    }

    /// Answers a keep-alive with its id.
    pub fn keep_alive(keep_alive_id: i32) -> (r: ClientPacket)
        ensures
            r.well_formed(),
            r.kind == ClientPacketKind::KeepAlive,
            fields_view(r.fields@) == seq![FieldView::Int(keep_alive_id)],
    {
        let mut fields: Vec<FieldValue> = Vec::new();
        fields.push(FieldValue::Int(keep_alive_id));
        let r = ClientPacket { kind: ClientPacketKind::KeepAlive, fields };
        assert(fields_view(r.fields@) =~= seq![FieldView::Int(keep_alive_id)]);
        r
    }

    /// A chat line.
    pub fn chat_message(message: &str) -> (r: ClientPacket)
        requires
            string_fits(message@),
        ensures
            r.well_formed(),
            r.kind == ClientPacketKind::ChatMessage,
            fields_view(r.fields@) == seq![FieldView::Text(message@)],
    {
        let mut fields: Vec<FieldValue> = Vec::new();
        fields.push(FieldValue::Text(message.to_owned()));
        let r = ClientPacket { kind: ClientPacketKind::ChatMessage, fields };
        assert(fields_view(r.fields@) =~= seq![FieldView::Text(message@)]);
        r
    }

    /// The player's position and look; the coordinates and angles are the
    /// bit patterns of their floats.
    pub fn player_pos_look(x: u64, y: u64, stance: u64, z: u64, yaw: u32, pitch: u32, on_ground: bool) -> (r: ClientPacket)
        ensures
            r.well_formed(),
            r.kind == ClientPacketKind::PlayerPosLook,
            fields_view(r.fields@) == seq![
                FieldView::Double(x),
                FieldView::Double(y),
                FieldView::Double(stance),
                FieldView::Double(z),
                FieldView::Float(yaw),
                FieldView::Float(pitch),
                FieldView::Boolean(on_ground),
            ],
    {
        let mut fields: Vec<FieldValue> = Vec::new();
        fields.push(FieldValue::Double(x));
        fields.push(FieldValue::Double(y));
        fields.push(FieldValue::Double(stance));
        fields.push(FieldValue::Double(z));
        fields.push(FieldValue::Float(yaw));
        fields.push(FieldValue::Float(pitch));
        fields.push(FieldValue::Boolean(on_ground));
        let r = ClientPacket { kind: ClientPacketKind::PlayerPosLook, fields };
        assert(fields_view(r.fields@) =~= seq![
            FieldView::Double(x),
            FieldView::Double(y),
            FieldView::Double(stance),
            FieldView::Double(z),
            FieldView::Float(yaw),
            FieldView::Float(pitch),
            FieldView::Boolean(on_ground),
        ]);
        r
    }

    /// The client's settings.
    pub fn client_settings(
        locale: &str,
        view_distance: u8,
        chat_flags: u8,
        chat_colors: bool,
        difficulty: u8,
        show_cape: bool,
    ) -> (r: ClientPacket)
        requires
            string_fits(locale@),
        ensures
            r.well_formed(),
            r.kind == ClientPacketKind::ClientSettings,
            fields_view(r.fields@) == seq![
                FieldView::Text(locale@),
                FieldView::Byte(view_distance),
                FieldView::Byte(chat_flags),
                FieldView::Boolean(chat_colors),
                FieldView::Byte(difficulty),
                FieldView::Boolean(show_cape),
            ],
    {
        let mut fields: Vec<FieldValue> = Vec::new();
        fields.push(FieldValue::Text(locale.to_owned()));
        fields.push(FieldValue::Byte(view_distance));
        fields.push(FieldValue::Byte(chat_flags));
        fields.push(FieldValue::Boolean(chat_colors));
        fields.push(FieldValue::Byte(difficulty));
        fields.push(FieldValue::Boolean(show_cape));
        let r = ClientPacket { kind: ClientPacketKind::ClientSettings, fields };
        assert(fields_view(r.fields@) =~= seq![
            FieldView::Text(locale@),
            FieldView::Byte(view_distance),
            FieldView::Byte(chat_flags),
            FieldView::Boolean(chat_colors),
            FieldView::Byte(difficulty),
            FieldView::Boolean(show_cape),
        ]);
        r
    }

    /// A status action (0: respawn).
    pub fn client_status(action_id: i32) -> (r: ClientPacket)
        ensures
            r.well_formed(),
            r.kind == ClientPacketKind::ClientStatus,
            fields_view(r.fields@) == seq![FieldView::VarInt(action_id)],
    {
        let mut fields: Vec<FieldValue> = Vec::new();
        fields.push(FieldValue::VarInt(action_id));
        let r = ClientPacket { kind: ClientPacketKind::ClientStatus, fields };
        assert(fields_view(r.fields@) =~= seq![FieldView::VarInt(action_id)]);
        r
    }

    /// A message on a plugin channel.
    pub fn custom_payload(channel: &str, data: Vec<u8>) -> (r: ClientPacket)
        requires
            string_fits(channel@),
            data@.len() <= i16::MAX,
        ensures
            r.well_formed(),
            r.kind == ClientPacketKind::CustomPayload,
            fields_view(r.fields@) == seq![FieldView::Text(channel@), FieldView::BytesShort(data@)],
    {
        let ghost d = data@;
        let mut fields: Vec<FieldValue> = Vec::new();
        fields.push(FieldValue::Text(channel.to_owned()));
        fields.push(FieldValue::BytesShort(data));
        let r = ClientPacket { kind: ClientPacketKind::CustomPayload, fields };
        assert(fields_view(r.fields@) =~= seq![FieldView::Text(channel@), FieldView::BytesShort(d)]);
        r
    }

    /// Asks for the server's status.
    pub fn status_request() -> (r: ClientPacket)
        ensures
            r.well_formed(),
            r.kind == ClientPacketKind::StatusRequest,
            fields_view(r.fields@) == Seq::<FieldView>::empty(),
    {
        let r = ClientPacket { kind: ClientPacketKind::StatusRequest, fields: Vec::new() };
        assert(fields_view(r.fields@) =~= Seq::<FieldView>::empty());
        r
    }

    /// A status ping carrying a payload the server echoes.
    pub fn status_ping(payload: i64) -> (r: ClientPacket)
        ensures
            r.well_formed(),
            r.kind == ClientPacketKind::StatusPing,
            fields_view(r.fields@) == seq![FieldView::Long(payload)],
    {
        let mut fields: Vec<FieldValue> = Vec::new();
        fields.push(FieldValue::Long(payload));
        let r = ClientPacket { kind: ClientPacketKind::StatusPing, fields };
        assert(fields_view(r.fields@) =~= seq![FieldView::Long(payload)]);
        r
    }
}

} // verus!
