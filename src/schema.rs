//! The packet tables: for every packet, its id, the phase it belongs to, who
//! sends it and its fields in wire order.
use vstd::prelude::*;
use crate::connection::ConnectionState;
use crate::fields::FieldKind;

verus! {

/// Who sends a packet: `Client` for packets the client writes, `Server` for
/// packets it receives.
#[derive(Clone, Copy, Debug, PartialEq, Eq, Hash, Structural)]
pub enum Bound {
    Client,
    Server,
}

/// The packets that the server sends, one variant per schema.
#[derive(Clone, Copy, Debug, PartialEq, Eq, Structural)]
pub enum ServerPacketKind {
    LoginDisconnect,
    EncryptionRequest,
    LoginSuccess,
    KeepAlive,
    JoinGame,
    ChatMessage,
    TimeUpdate,
    EntityEquipment,
    SpawnPosition,
    UpdateHealth,
    Respawn,
    PlayerPositionAndLook,
    HeldItemChange,
    UseBed,
    Animation,
    SpawnPlayer,
    CollectItem,
    SpawnObject,
    SpawnMob,
    SpawnPainting,
    SpawnExperienceOrb,
    EntityVelocity,
    DestroyEntities,
    Entity,
    EntityRelMove,
    EntityLookAndMovement,
    EntityLookMove,
    EntityTeleport,
    EntityStatus,
    AttachEntity,
    EntityMetadata,
    EntityEffect,
    RemoveEntityEffect,
    Experience,
    SetExperience,
    EntityProperties,
    ChunkData,
    MultiBlockChange,
    BlockChange,
    MapChunkBulk,
    Explosion,
    Effect,
    SoundEffect,
    ChangeGameState,
    CloseWindow,
    SetSlot,
    WindowItems,
    UpdateTileEntity,
    Statistics,
    PlayerListItem,
    PlayerAbilities,
    CustomPayload,
}

impl ServerPacketKind {
    pub open spec fn spec_id(self) -> i32 {
        match self {
            ServerPacketKind::LoginDisconnect => 0x00,
            ServerPacketKind::EncryptionRequest => 0x01,
            ServerPacketKind::LoginSuccess => 0x02,
            ServerPacketKind::KeepAlive => 0x00,
            ServerPacketKind::JoinGame => 0x01,
            ServerPacketKind::ChatMessage => 0x02,
            ServerPacketKind::TimeUpdate => 0x03,
            ServerPacketKind::EntityEquipment => 0x04,
            ServerPacketKind::SpawnPosition => 0x05,
            ServerPacketKind::UpdateHealth => 0x06,
            ServerPacketKind::Respawn => 0x07,
            ServerPacketKind::PlayerPositionAndLook => 0x08,
            ServerPacketKind::HeldItemChange => 0x09,
            ServerPacketKind::UseBed => 0x0A,
            ServerPacketKind::Animation => 0x0B,
            ServerPacketKind::SpawnPlayer => 0x0C,
            ServerPacketKind::CollectItem => 0x0D,
            ServerPacketKind::SpawnObject => 0x0E,
            ServerPacketKind::SpawnMob => 0x0F,
            ServerPacketKind::SpawnPainting => 0x10,
            ServerPacketKind::SpawnExperienceOrb => 0x11,
            ServerPacketKind::EntityVelocity => 0x12,
            ServerPacketKind::DestroyEntities => 0x13,
            ServerPacketKind::Entity => 0x14,
            ServerPacketKind::EntityRelMove => 0x15,
            ServerPacketKind::EntityLookAndMovement => 0x16,
            ServerPacketKind::EntityLookMove => 0x17,
            ServerPacketKind::EntityTeleport => 0x18,
            ServerPacketKind::EntityStatus => 0x19,
            ServerPacketKind::AttachEntity => 0x1A,
            ServerPacketKind::EntityMetadata => 0x1B,
            ServerPacketKind::EntityEffect => 0x1C,
            ServerPacketKind::RemoveEntityEffect => 0x1D,
            ServerPacketKind::Experience => 0x1E,
            ServerPacketKind::SetExperience => 0x1F,
            ServerPacketKind::EntityProperties => 0x20,
            ServerPacketKind::ChunkData => 0x21,
            ServerPacketKind::MultiBlockChange => 0x22,
            ServerPacketKind::BlockChange => 0x23,
            ServerPacketKind::MapChunkBulk => 0x26,
            ServerPacketKind::Explosion => 0x27,
            ServerPacketKind::Effect => 0x28,
            ServerPacketKind::SoundEffect => 0x29,
            ServerPacketKind::ChangeGameState => 0x2B,
            ServerPacketKind::CloseWindow => 0x2E,
            ServerPacketKind::SetSlot => 0x2F,
            ServerPacketKind::WindowItems => 0x30,
            ServerPacketKind::UpdateTileEntity => 0x35,
            ServerPacketKind::Statistics => 0x37,
            ServerPacketKind::PlayerListItem => 0x38,
            ServerPacketKind::PlayerAbilities => 0x39,
            ServerPacketKind::CustomPayload => 0x3F,
        }
    }

    pub open spec fn spec_state(self) -> ConnectionState {
        match self {
            ServerPacketKind::LoginDisconnect => ConnectionState::Login,
            ServerPacketKind::EncryptionRequest => ConnectionState::Login,
            ServerPacketKind::LoginSuccess => ConnectionState::Login,
            ServerPacketKind::KeepAlive => ConnectionState::Play,
            ServerPacketKind::JoinGame => ConnectionState::Play,
            ServerPacketKind::ChatMessage => ConnectionState::Play,
            ServerPacketKind::TimeUpdate => ConnectionState::Play,
            ServerPacketKind::EntityEquipment => ConnectionState::Play,
            ServerPacketKind::SpawnPosition => ConnectionState::Play,
            ServerPacketKind::UpdateHealth => ConnectionState::Play,
            ServerPacketKind::Respawn => ConnectionState::Play,
            ServerPacketKind::PlayerPositionAndLook => ConnectionState::Play,
            ServerPacketKind::HeldItemChange => ConnectionState::Play,
            ServerPacketKind::UseBed => ConnectionState::Play,
            ServerPacketKind::Animation => ConnectionState::Play,
            ServerPacketKind::SpawnPlayer => ConnectionState::Play,
            ServerPacketKind::CollectItem => ConnectionState::Play,
            ServerPacketKind::SpawnObject => ConnectionState::Play,
            ServerPacketKind::SpawnMob => ConnectionState::Play,
            ServerPacketKind::SpawnPainting => ConnectionState::Play,
            ServerPacketKind::SpawnExperienceOrb => ConnectionState::Play,
            ServerPacketKind::EntityVelocity => ConnectionState::Play,
            ServerPacketKind::DestroyEntities => ConnectionState::Play,
            ServerPacketKind::Entity => ConnectionState::Play,
            ServerPacketKind::EntityRelMove => ConnectionState::Play,
            ServerPacketKind::EntityLookAndMovement => ConnectionState::Play,
            ServerPacketKind::EntityLookMove => ConnectionState::Play,
            ServerPacketKind::EntityTeleport => ConnectionState::Play,
            ServerPacketKind::EntityStatus => ConnectionState::Play,
            ServerPacketKind::AttachEntity => ConnectionState::Play,
            ServerPacketKind::EntityMetadata => ConnectionState::Play,
            ServerPacketKind::EntityEffect => ConnectionState::Play,
            ServerPacketKind::RemoveEntityEffect => ConnectionState::Play,
            ServerPacketKind::Experience => ConnectionState::Play,
            ServerPacketKind::SetExperience => ConnectionState::Play,
            ServerPacketKind::EntityProperties => ConnectionState::Play,
            ServerPacketKind::ChunkData => ConnectionState::Play,
            ServerPacketKind::MultiBlockChange => ConnectionState::Play,
            ServerPacketKind::BlockChange => ConnectionState::Play,
            ServerPacketKind::MapChunkBulk => ConnectionState::Play,
            ServerPacketKind::Explosion => ConnectionState::Play,
            ServerPacketKind::Effect => ConnectionState::Play,
            ServerPacketKind::SoundEffect => ConnectionState::Play,
            ServerPacketKind::ChangeGameState => ConnectionState::Play,
            ServerPacketKind::CloseWindow => ConnectionState::Play,
            ServerPacketKind::SetSlot => ConnectionState::Play,
            ServerPacketKind::WindowItems => ConnectionState::Play,
            ServerPacketKind::UpdateTileEntity => ConnectionState::Play,
            ServerPacketKind::Statistics => ConnectionState::Play,
            ServerPacketKind::PlayerListItem => ConnectionState::Play,
            ServerPacketKind::PlayerAbilities => ConnectionState::Play,
            ServerPacketKind::CustomPayload => ConnectionState::Play,
        }
    }

    /// The fields of this packet, in wire order.
    pub open spec fn spec_fields(self) -> Seq<FieldKind> {
        match self {
            ServerPacketKind::LoginDisconnect => seq![FieldKind::Text],
            ServerPacketKind::EncryptionRequest => seq![FieldKind::Text, FieldKind::BytesShort, FieldKind::BytesShort],
            ServerPacketKind::LoginSuccess => seq![FieldKind::Text, FieldKind::Text],
            ServerPacketKind::KeepAlive => seq![FieldKind::Int],
            ServerPacketKind::JoinGame => seq![FieldKind::Int, FieldKind::Byte, FieldKind::Byte, FieldKind::Byte, FieldKind::Byte, FieldKind::Text],
            ServerPacketKind::ChatMessage => seq![FieldKind::Text],
            ServerPacketKind::TimeUpdate => seq![FieldKind::Long, FieldKind::Long],
            ServerPacketKind::EntityEquipment => seq![FieldKind::VarInt, FieldKind::Short, FieldKind::Int],
            ServerPacketKind::SpawnPosition => seq![FieldKind::Int, FieldKind::Int, FieldKind::Int],
            ServerPacketKind::UpdateHealth => seq![FieldKind::Float, FieldKind::Short, FieldKind::Float],
            ServerPacketKind::Respawn => seq![FieldKind::Int, FieldKind::Byte, FieldKind::Byte, FieldKind::Text],
            ServerPacketKind::PlayerPositionAndLook => seq![FieldKind::Double, FieldKind::Double, FieldKind::Double, FieldKind::Float, FieldKind::Float, FieldKind::Boolean],
            ServerPacketKind::HeldItemChange => seq![FieldKind::Byte],
            ServerPacketKind::UseBed => seq![FieldKind::VarInt, FieldKind::Int, FieldKind::Byte, FieldKind::Int],
            ServerPacketKind::Animation => seq![FieldKind::VarInt, FieldKind::Byte],
            ServerPacketKind::SpawnPlayer => seq![FieldKind::VarInt, FieldKind::Profile, FieldKind::Double, FieldKind::Double, FieldKind::Double, FieldKind::Float, FieldKind::Float, FieldKind::Byte],
            ServerPacketKind::CollectItem => seq![FieldKind::VarInt, FieldKind::VarInt, FieldKind::Short],
            ServerPacketKind::SpawnObject => seq![FieldKind::VarInt, FieldKind::Byte, FieldKind::Int, FieldKind::Int, FieldKind::Int, FieldKind::Byte, FieldKind::Byte, FieldKind::Int],
            ServerPacketKind::SpawnMob => seq![FieldKind::VarInt, FieldKind::Byte, FieldKind::Double, FieldKind::Double, FieldKind::Double, FieldKind::Float, FieldKind::Float, FieldKind::Float, FieldKind::Short, FieldKind::Short, FieldKind::Short],
            ServerPacketKind::SpawnPainting => seq![FieldKind::VarInt, FieldKind::Text, FieldKind::Int, FieldKind::Int, FieldKind::Int, FieldKind::Byte],
            ServerPacketKind::SpawnExperienceOrb => seq![FieldKind::VarInt, FieldKind::Int, FieldKind::Int, FieldKind::Int, FieldKind::Short],
            ServerPacketKind::EntityVelocity => seq![FieldKind::VarInt, FieldKind::Short, FieldKind::Short, FieldKind::Short],
            ServerPacketKind::DestroyEntities => seq![FieldKind::Unimplemented],
            ServerPacketKind::Entity => seq![FieldKind::Int],
            ServerPacketKind::EntityRelMove => seq![FieldKind::Int, FieldKind::Byte, FieldKind::Byte, FieldKind::Byte],
            ServerPacketKind::EntityLookAndMovement => seq![FieldKind::Int, FieldKind::Byte, FieldKind::Byte],
            ServerPacketKind::EntityLookMove => seq![FieldKind::Int, FieldKind::Byte, FieldKind::Byte, FieldKind::Byte, FieldKind::Byte, FieldKind::Byte],
            ServerPacketKind::EntityTeleport => seq![FieldKind::Int, FieldKind::Int, FieldKind::Int, FieldKind::Int, FieldKind::Byte, FieldKind::Byte],
            ServerPacketKind::EntityStatus => seq![FieldKind::VarInt, FieldKind::Byte],
            ServerPacketKind::AttachEntity => seq![FieldKind::VarInt, FieldKind::Int],
            ServerPacketKind::EntityMetadata => seq![FieldKind::VarInt, FieldKind::BytesVarInt],
            ServerPacketKind::EntityEffect => seq![FieldKind::VarInt, FieldKind::Byte, FieldKind::Byte, FieldKind::VarInt],
            ServerPacketKind::RemoveEntityEffect => seq![FieldKind::VarInt, FieldKind::Byte],
            ServerPacketKind::Experience => seq![FieldKind::Float, FieldKind::VarInt, FieldKind::VarInt],
            ServerPacketKind::SetExperience => seq![FieldKind::Float, FieldKind::Short, FieldKind::Short],
            ServerPacketKind::EntityProperties => seq![FieldKind::Int, FieldKind::EntityProperties],
            ServerPacketKind::ChunkData => seq![FieldKind::Unimplemented],
            ServerPacketKind::MultiBlockChange => seq![FieldKind::Unimplemented],
            ServerPacketKind::BlockChange => seq![FieldKind::Int, FieldKind::Byte, FieldKind::Int, FieldKind::VarInt, FieldKind::Byte],
            ServerPacketKind::MapChunkBulk => seq![FieldKind::Unimplemented],
            ServerPacketKind::Explosion => seq![FieldKind::Unimplemented],
            ServerPacketKind::Effect => seq![FieldKind::Int, FieldKind::Int, FieldKind::Byte, FieldKind::Int, FieldKind::Int, FieldKind::Boolean],
            ServerPacketKind::SoundEffect => seq![FieldKind::Text, FieldKind::Int, FieldKind::Int, FieldKind::Int, FieldKind::Float, FieldKind::Byte],
            ServerPacketKind::ChangeGameState => seq![FieldKind::Byte, FieldKind::Float],
            ServerPacketKind::CloseWindow => seq![FieldKind::Byte],
            ServerPacketKind::SetSlot => seq![FieldKind::Byte, FieldKind::Short, FieldKind::Item],
            ServerPacketKind::WindowItems => seq![FieldKind::Byte, FieldKind::Short, FieldKind::Items],
            ServerPacketKind::UpdateTileEntity => seq![FieldKind::Unimplemented],
            ServerPacketKind::Statistics => seq![FieldKind::Statistics],
            ServerPacketKind::PlayerListItem => seq![FieldKind::Text, FieldKind::Byte, FieldKind::Short],
            ServerPacketKind::PlayerAbilities => seq![FieldKind::Byte, FieldKind::Float, FieldKind::Float],
            ServerPacketKind::CustomPayload => seq![FieldKind::Text, FieldKind::BytesVarInt],
        }
    }

    /// Who sends this packet.
    pub open spec fn spec_bound(self) -> Bound {
        Bound::Server
    }

    pub fn id(self) -> (r: i32)
        ensures
            r == self.spec_id(),
    {
        match self {
            ServerPacketKind::LoginDisconnect => 0x00,
            ServerPacketKind::EncryptionRequest => 0x01,
            ServerPacketKind::LoginSuccess => 0x02,
            ServerPacketKind::KeepAlive => 0x00,
            ServerPacketKind::JoinGame => 0x01,
            ServerPacketKind::ChatMessage => 0x02,
            ServerPacketKind::TimeUpdate => 0x03,
            ServerPacketKind::EntityEquipment => 0x04,
            ServerPacketKind::SpawnPosition => 0x05,
            ServerPacketKind::UpdateHealth => 0x06,
            ServerPacketKind::Respawn => 0x07,
            ServerPacketKind::PlayerPositionAndLook => 0x08,
            ServerPacketKind::HeldItemChange => 0x09,
            ServerPacketKind::UseBed => 0x0A,
            ServerPacketKind::Animation => 0x0B,
            ServerPacketKind::SpawnPlayer => 0x0C,
            ServerPacketKind::CollectItem => 0x0D,
            ServerPacketKind::SpawnObject => 0x0E,
            ServerPacketKind::SpawnMob => 0x0F,
            ServerPacketKind::SpawnPainting => 0x10,
            ServerPacketKind::SpawnExperienceOrb => 0x11,
            ServerPacketKind::EntityVelocity => 0x12,
            ServerPacketKind::DestroyEntities => 0x13,
            ServerPacketKind::Entity => 0x14,
            ServerPacketKind::EntityRelMove => 0x15,
            ServerPacketKind::EntityLookAndMovement => 0x16,
            ServerPacketKind::EntityLookMove => 0x17,
            ServerPacketKind::EntityTeleport => 0x18,
            ServerPacketKind::EntityStatus => 0x19,
            ServerPacketKind::AttachEntity => 0x1A,
            ServerPacketKind::EntityMetadata => 0x1B,
            ServerPacketKind::EntityEffect => 0x1C,
            ServerPacketKind::RemoveEntityEffect => 0x1D,
            ServerPacketKind::Experience => 0x1E,
            ServerPacketKind::SetExperience => 0x1F,
            ServerPacketKind::EntityProperties => 0x20,
            ServerPacketKind::ChunkData => 0x21,
            ServerPacketKind::MultiBlockChange => 0x22,
            ServerPacketKind::BlockChange => 0x23,
            ServerPacketKind::MapChunkBulk => 0x26,
            ServerPacketKind::Explosion => 0x27,
            ServerPacketKind::Effect => 0x28,
            ServerPacketKind::SoundEffect => 0x29,
            ServerPacketKind::ChangeGameState => 0x2B,
            ServerPacketKind::CloseWindow => 0x2E,
            ServerPacketKind::SetSlot => 0x2F,
            ServerPacketKind::WindowItems => 0x30,
            ServerPacketKind::UpdateTileEntity => 0x35,
            ServerPacketKind::Statistics => 0x37,
            ServerPacketKind::PlayerListItem => 0x38,
            ServerPacketKind::PlayerAbilities => 0x39,
            ServerPacketKind::CustomPayload => 0x3F,
        }
    }

    pub fn state(self) -> (r: ConnectionState)
        ensures
            r == self.spec_state(),
    {
        match self {
            ServerPacketKind::LoginDisconnect => ConnectionState::Login,
            ServerPacketKind::EncryptionRequest => ConnectionState::Login,
            ServerPacketKind::LoginSuccess => ConnectionState::Login,
            ServerPacketKind::KeepAlive => ConnectionState::Play,
            ServerPacketKind::JoinGame => ConnectionState::Play,
            ServerPacketKind::ChatMessage => ConnectionState::Play,
            ServerPacketKind::TimeUpdate => ConnectionState::Play,
            ServerPacketKind::EntityEquipment => ConnectionState::Play,
            ServerPacketKind::SpawnPosition => ConnectionState::Play,
            ServerPacketKind::UpdateHealth => ConnectionState::Play,
            ServerPacketKind::Respawn => ConnectionState::Play,
            ServerPacketKind::PlayerPositionAndLook => ConnectionState::Play,
            ServerPacketKind::HeldItemChange => ConnectionState::Play,
            ServerPacketKind::UseBed => ConnectionState::Play,
            ServerPacketKind::Animation => ConnectionState::Play,
            ServerPacketKind::SpawnPlayer => ConnectionState::Play,
            ServerPacketKind::CollectItem => ConnectionState::Play,
            ServerPacketKind::SpawnObject => ConnectionState::Play,
            ServerPacketKind::SpawnMob => ConnectionState::Play,
            ServerPacketKind::SpawnPainting => ConnectionState::Play,
            ServerPacketKind::SpawnExperienceOrb => ConnectionState::Play,
            ServerPacketKind::EntityVelocity => ConnectionState::Play,
            ServerPacketKind::DestroyEntities => ConnectionState::Play,
            ServerPacketKind::Entity => ConnectionState::Play,
            ServerPacketKind::EntityRelMove => ConnectionState::Play,
            ServerPacketKind::EntityLookAndMovement => ConnectionState::Play,
            ServerPacketKind::EntityLookMove => ConnectionState::Play,
            ServerPacketKind::EntityTeleport => ConnectionState::Play,
            ServerPacketKind::EntityStatus => ConnectionState::Play,
            ServerPacketKind::AttachEntity => ConnectionState::Play,
            ServerPacketKind::EntityMetadata => ConnectionState::Play,
            ServerPacketKind::EntityEffect => ConnectionState::Play,
            ServerPacketKind::RemoveEntityEffect => ConnectionState::Play,
            ServerPacketKind::Experience => ConnectionState::Play,
            ServerPacketKind::SetExperience => ConnectionState::Play,
            ServerPacketKind::EntityProperties => ConnectionState::Play,
            ServerPacketKind::ChunkData => ConnectionState::Play,
            ServerPacketKind::MultiBlockChange => ConnectionState::Play,
            ServerPacketKind::BlockChange => ConnectionState::Play,
            ServerPacketKind::MapChunkBulk => ConnectionState::Play,
            ServerPacketKind::Explosion => ConnectionState::Play,
            ServerPacketKind::Effect => ConnectionState::Play,
            ServerPacketKind::SoundEffect => ConnectionState::Play,
            ServerPacketKind::ChangeGameState => ConnectionState::Play,
            ServerPacketKind::CloseWindow => ConnectionState::Play,
            ServerPacketKind::SetSlot => ConnectionState::Play,
            ServerPacketKind::WindowItems => ConnectionState::Play,
            ServerPacketKind::UpdateTileEntity => ConnectionState::Play,
            ServerPacketKind::Statistics => ConnectionState::Play,
            ServerPacketKind::PlayerListItem => ConnectionState::Play,
            ServerPacketKind::PlayerAbilities => ConnectionState::Play,
            ServerPacketKind::CustomPayload => ConnectionState::Play,
        }
    }

    pub fn bound(self) -> (r: Bound)
        ensures
            r == self.spec_bound(),
    {
        Bound::Server
    }

    pub fn fields(self) -> (r: Vec<FieldKind>)
        ensures
            r@ == self.spec_fields(),
    {
        let mut v: Vec<FieldKind> = Vec::new();
        match self {
            ServerPacketKind::LoginDisconnect => {
                v.push(FieldKind::Text);
            },
            ServerPacketKind::EncryptionRequest => {
                v.push(FieldKind::Text);
                v.push(FieldKind::BytesShort);
                v.push(FieldKind::BytesShort);
            },
            ServerPacketKind::LoginSuccess => {
                v.push(FieldKind::Text);
                v.push(FieldKind::Text);
            },
            ServerPacketKind::KeepAlive => {
                v.push(FieldKind::Int);
            },
            ServerPacketKind::JoinGame => {
                v.push(FieldKind::Int);
                v.push(FieldKind::Byte);
                v.push(FieldKind::Byte);
                v.push(FieldKind::Byte);
                v.push(FieldKind::Byte);
                v.push(FieldKind::Text);
            },
            ServerPacketKind::ChatMessage => {
                v.push(FieldKind::Text);
            },
            ServerPacketKind::TimeUpdate => {
                v.push(FieldKind::Long);
                v.push(FieldKind::Long);
            },
            ServerPacketKind::EntityEquipment => {
                v.push(FieldKind::VarInt);
                v.push(FieldKind::Short);
                v.push(FieldKind::Int);
            },
            ServerPacketKind::SpawnPosition => {
                v.push(FieldKind::Int);
                v.push(FieldKind::Int);
                v.push(FieldKind::Int);
            },
            ServerPacketKind::UpdateHealth => {
                v.push(FieldKind::Float);
                v.push(FieldKind::Short);
                v.push(FieldKind::Float);
            },
            ServerPacketKind::Respawn => {
                v.push(FieldKind::Int);
                v.push(FieldKind::Byte);
                v.push(FieldKind::Byte);
                v.push(FieldKind::Text);
            },
            ServerPacketKind::PlayerPositionAndLook => {
                v.push(FieldKind::Double);
                v.push(FieldKind::Double);
                v.push(FieldKind::Double);
                v.push(FieldKind::Float);
                v.push(FieldKind::Float);
                v.push(FieldKind::Boolean);
            },
            ServerPacketKind::HeldItemChange => {
                v.push(FieldKind::Byte);
            },
            ServerPacketKind::UseBed => {
                v.push(FieldKind::VarInt);
                v.push(FieldKind::Int);
                v.push(FieldKind::Byte);
                v.push(FieldKind::Int);
            },
            ServerPacketKind::Animation => {
                v.push(FieldKind::VarInt);
                v.push(FieldKind::Byte);
            },
            ServerPacketKind::SpawnPlayer => {
                v.push(FieldKind::VarInt);
                v.push(FieldKind::Profile);
                v.push(FieldKind::Double);
                v.push(FieldKind::Double);
                v.push(FieldKind::Double);
                v.push(FieldKind::Float);
                v.push(FieldKind::Float);
                v.push(FieldKind::Byte);
            },
            ServerPacketKind::CollectItem => {
                v.push(FieldKind::VarInt);
                v.push(FieldKind::VarInt);
                v.push(FieldKind::Short);
            },
            ServerPacketKind::SpawnObject => {
                v.push(FieldKind::VarInt);
                v.push(FieldKind::Byte);
                v.push(FieldKind::Int);
                v.push(FieldKind::Int);
                v.push(FieldKind::Int);
                v.push(FieldKind::Byte);
                v.push(FieldKind::Byte);
                v.push(FieldKind::Int);
            },
            ServerPacketKind::SpawnMob => {
                v.push(FieldKind::VarInt);
                v.push(FieldKind::Byte);
                v.push(FieldKind::Double);
                v.push(FieldKind::Double);
                v.push(FieldKind::Double);
                v.push(FieldKind::Float);
                v.push(FieldKind::Float);
                v.push(FieldKind::Float);
                v.push(FieldKind::Short);
                v.push(FieldKind::Short);
                v.push(FieldKind::Short);
            },
            ServerPacketKind::SpawnPainting => {
                v.push(FieldKind::VarInt);
                v.push(FieldKind::Text);
                v.push(FieldKind::Int);
                v.push(FieldKind::Int);
                v.push(FieldKind::Int);
                v.push(FieldKind::Byte);
            },
            ServerPacketKind::SpawnExperienceOrb => {
                v.push(FieldKind::VarInt);
                v.push(FieldKind::Int);
                v.push(FieldKind::Int);
                v.push(FieldKind::Int);
                v.push(FieldKind::Short);
            },
            ServerPacketKind::EntityVelocity => {
                v.push(FieldKind::VarInt);
                v.push(FieldKind::Short);
                v.push(FieldKind::Short);
                v.push(FieldKind::Short);
            },
            ServerPacketKind::DestroyEntities => {
                v.push(FieldKind::Unimplemented);
            },
            ServerPacketKind::Entity => {
                v.push(FieldKind::Int);
            },
            ServerPacketKind::EntityRelMove => {
                v.push(FieldKind::Int);
                v.push(FieldKind::Byte);
                v.push(FieldKind::Byte);
                v.push(FieldKind::Byte);
            },
            ServerPacketKind::EntityLookAndMovement => {
                v.push(FieldKind::Int);
                v.push(FieldKind::Byte);
                v.push(FieldKind::Byte);
            },
            ServerPacketKind::EntityLookMove => {
                v.push(FieldKind::Int);
                v.push(FieldKind::Byte);
                v.push(FieldKind::Byte);
                v.push(FieldKind::Byte);
                v.push(FieldKind::Byte);
                v.push(FieldKind::Byte);
            },
            ServerPacketKind::EntityTeleport => {
                v.push(FieldKind::Int);
                v.push(FieldKind::Int);
                v.push(FieldKind::Int);
                v.push(FieldKind::Int);
                v.push(FieldKind::Byte);
                v.push(FieldKind::Byte);
            },
            ServerPacketKind::EntityStatus => {
                v.push(FieldKind::VarInt);
                v.push(FieldKind::Byte);
            },
            ServerPacketKind::AttachEntity => {
                v.push(FieldKind::VarInt);
                v.push(FieldKind::Int);
            },
            ServerPacketKind::EntityMetadata => {
                v.push(FieldKind::VarInt);
                v.push(FieldKind::BytesVarInt);
            },
            ServerPacketKind::EntityEffect => {
                v.push(FieldKind::VarInt);
                v.push(FieldKind::Byte);
                v.push(FieldKind::Byte);
                v.push(FieldKind::VarInt);
            },
            ServerPacketKind::RemoveEntityEffect => {
                v.push(FieldKind::VarInt);
                v.push(FieldKind::Byte);
            },
            ServerPacketKind::Experience => {
                v.push(FieldKind::Float);
                v.push(FieldKind::VarInt);
                v.push(FieldKind::VarInt);
            },
            ServerPacketKind::SetExperience => {
                v.push(FieldKind::Float);
                v.push(FieldKind::Short);
                v.push(FieldKind::Short);
            },
            ServerPacketKind::EntityProperties => {
                v.push(FieldKind::Int);
                v.push(FieldKind::EntityProperties);
            },
            ServerPacketKind::ChunkData => {
                v.push(FieldKind::Unimplemented);
            },
            ServerPacketKind::MultiBlockChange => {
                v.push(FieldKind::Unimplemented);
            },
            ServerPacketKind::BlockChange => {
                v.push(FieldKind::Int);
                v.push(FieldKind::Byte);
                v.push(FieldKind::Int);
                v.push(FieldKind::VarInt);
                v.push(FieldKind::Byte);
            },
            ServerPacketKind::MapChunkBulk => {
                v.push(FieldKind::Unimplemented);
            },
            ServerPacketKind::Explosion => {
                v.push(FieldKind::Unimplemented);
            },
            ServerPacketKind::Effect => {
                v.push(FieldKind::Int);
                v.push(FieldKind::Int);
                v.push(FieldKind::Byte);
                v.push(FieldKind::Int);
                v.push(FieldKind::Int);
                v.push(FieldKind::Boolean);
            },
            ServerPacketKind::SoundEffect => {
                v.push(FieldKind::Text);
                v.push(FieldKind::Int);
                v.push(FieldKind::Int);
                v.push(FieldKind::Int);
                v.push(FieldKind::Float);
                v.push(FieldKind::Byte);
            },
            ServerPacketKind::ChangeGameState => {
                v.push(FieldKind::Byte);
                v.push(FieldKind::Float);
            },
            ServerPacketKind::CloseWindow => {
                v.push(FieldKind::Byte);
            },
            ServerPacketKind::SetSlot => {
                v.push(FieldKind::Byte);
                v.push(FieldKind::Short);
                v.push(FieldKind::Item);
            },
            ServerPacketKind::WindowItems => {
                v.push(FieldKind::Byte);
                v.push(FieldKind::Short);
                v.push(FieldKind::Items);
            },
            ServerPacketKind::UpdateTileEntity => {
                v.push(FieldKind::Unimplemented);
            },
            ServerPacketKind::Statistics => {
                v.push(FieldKind::Statistics);
            },
            ServerPacketKind::PlayerListItem => {
                v.push(FieldKind::Text);
                v.push(FieldKind::Byte);
                v.push(FieldKind::Short);
            },
            ServerPacketKind::PlayerAbilities => {
                v.push(FieldKind::Byte);
                v.push(FieldKind::Float);
                v.push(FieldKind::Float);
            },
            ServerPacketKind::CustomPayload => {
                v.push(FieldKind::Text);
                v.push(FieldKind::BytesVarInt);
            },
        }
        assert(v@ =~= self.spec_fields());
        v
    }
}

/// The packets that the client sends, one variant per schema.
#[derive(Clone, Copy, Debug, PartialEq, Eq, Structural)]
pub enum ClientPacketKind {
    Handshake,
    LoginStart,
    EncryptionResponse,
    KeepAlive,
    ChatMessage,
    PlayerPosLook,
    ClientSettings,
    ClientStatus,
    CustomPayload,
    StatusRequest,
    StatusPing,
}

impl ClientPacketKind {
    pub open spec fn spec_id(self) -> i32 {
        match self {
            ClientPacketKind::Handshake => 0x00,
            ClientPacketKind::LoginStart => 0x00,
            ClientPacketKind::EncryptionResponse => 0x01,
            ClientPacketKind::KeepAlive => 0x00,
            ClientPacketKind::ChatMessage => 0x01,
            ClientPacketKind::PlayerPosLook => 0x06,
            ClientPacketKind::ClientSettings => 0x15,
            ClientPacketKind::ClientStatus => 0x16,
            ClientPacketKind::CustomPayload => 0x17,
            ClientPacketKind::StatusRequest => 0x00,
            ClientPacketKind::StatusPing => 0x01,
        }
    }

    pub open spec fn spec_state(self) -> ConnectionState {
        match self {
            ClientPacketKind::Handshake => ConnectionState::Handshaking,
            ClientPacketKind::LoginStart => ConnectionState::Login,
            ClientPacketKind::EncryptionResponse => ConnectionState::Login,
            ClientPacketKind::KeepAlive => ConnectionState::Play,
            ClientPacketKind::ChatMessage => ConnectionState::Play,
            ClientPacketKind::PlayerPosLook => ConnectionState::Play,
            ClientPacketKind::ClientSettings => ConnectionState::Play,
            ClientPacketKind::ClientStatus => ConnectionState::Play,
            ClientPacketKind::CustomPayload => ConnectionState::Play,
            ClientPacketKind::StatusRequest => ConnectionState::Status,
            ClientPacketKind::StatusPing => ConnectionState::Status,
        }
    }

    /// The fields of this packet, in wire order.
    pub open spec fn spec_fields(self) -> Seq<FieldKind> {
        match self {
            ClientPacketKind::Handshake => seq![FieldKind::VarInt, FieldKind::Text, FieldKind::UShort, FieldKind::VarInt],
            ClientPacketKind::LoginStart => seq![FieldKind::Text],
            ClientPacketKind::EncryptionResponse => seq![FieldKind::BytesShort, FieldKind::BytesShort],
            ClientPacketKind::KeepAlive => seq![FieldKind::Int],
            ClientPacketKind::ChatMessage => seq![FieldKind::Text],
            ClientPacketKind::PlayerPosLook => seq![FieldKind::Double, FieldKind::Double, FieldKind::Double, FieldKind::Double, FieldKind::Float, FieldKind::Float, FieldKind::Boolean],
            ClientPacketKind::ClientSettings => seq![FieldKind::Text, FieldKind::Byte, FieldKind::Byte, FieldKind::Boolean, FieldKind::Byte, FieldKind::Boolean],
            ClientPacketKind::ClientStatus => seq![FieldKind::VarInt],
            ClientPacketKind::CustomPayload => seq![FieldKind::Text, FieldKind::BytesShort],
            ClientPacketKind::StatusRequest => seq![],
            ClientPacketKind::StatusPing => seq![FieldKind::Long],
        }
    }

    /// Who sends this packet.
    pub open spec fn spec_bound(self) -> Bound {
        Bound::Client
    }

    pub fn id(self) -> (r: i32)
        ensures
            r == self.spec_id(),
    {
        match self {
            ClientPacketKind::Handshake => 0x00,
            ClientPacketKind::LoginStart => 0x00,
            ClientPacketKind::EncryptionResponse => 0x01,
            ClientPacketKind::KeepAlive => 0x00,
            ClientPacketKind::ChatMessage => 0x01,
            ClientPacketKind::PlayerPosLook => 0x06,
            ClientPacketKind::ClientSettings => 0x15,
            ClientPacketKind::ClientStatus => 0x16,
            ClientPacketKind::CustomPayload => 0x17,
            ClientPacketKind::StatusRequest => 0x00,
            ClientPacketKind::StatusPing => 0x01,
        }
    }

    pub fn state(self) -> (r: ConnectionState)
        ensures
            r == self.spec_state(),
    {
        match self {
            ClientPacketKind::Handshake => ConnectionState::Handshaking,
            ClientPacketKind::LoginStart => ConnectionState::Login,
            ClientPacketKind::EncryptionResponse => ConnectionState::Login,
            ClientPacketKind::KeepAlive => ConnectionState::Play,
            ClientPacketKind::ChatMessage => ConnectionState::Play,
            ClientPacketKind::PlayerPosLook => ConnectionState::Play,
            ClientPacketKind::ClientSettings => ConnectionState::Play,
            ClientPacketKind::ClientStatus => ConnectionState::Play,
            ClientPacketKind::CustomPayload => ConnectionState::Play,
            ClientPacketKind::StatusRequest => ConnectionState::Status,
            ClientPacketKind::StatusPing => ConnectionState::Status,
        }
    }

    pub fn bound(self) -> (r: Bound)
        ensures
            r == self.spec_bound(),
    {
        Bound::Client
    }

    pub fn fields(self) -> (r: Vec<FieldKind>)
        ensures
            r@ == self.spec_fields(),
    {
        let mut v: Vec<FieldKind> = Vec::new();
        match self {
            ClientPacketKind::Handshake => {
                v.push(FieldKind::VarInt);
                v.push(FieldKind::Text);
                v.push(FieldKind::UShort);
                v.push(FieldKind::VarInt);
            },
            ClientPacketKind::LoginStart => {
                v.push(FieldKind::Text);
            },
            ClientPacketKind::EncryptionResponse => {
                v.push(FieldKind::BytesShort);
                v.push(FieldKind::BytesShort);
            },
            ClientPacketKind::KeepAlive => {
                v.push(FieldKind::Int);
            },
            ClientPacketKind::ChatMessage => {
                v.push(FieldKind::Text);
            },
            ClientPacketKind::PlayerPosLook => {
                v.push(FieldKind::Double);
                v.push(FieldKind::Double);
                v.push(FieldKind::Double);
                v.push(FieldKind::Double);
                v.push(FieldKind::Float);
                v.push(FieldKind::Float);
                v.push(FieldKind::Boolean);
            },
            ClientPacketKind::ClientSettings => {
                v.push(FieldKind::Text);
                v.push(FieldKind::Byte);
                v.push(FieldKind::Byte);
                v.push(FieldKind::Boolean);
                v.push(FieldKind::Byte);
                v.push(FieldKind::Boolean);
            },
            ClientPacketKind::ClientStatus => {
                v.push(FieldKind::VarInt);
            },
            ClientPacketKind::CustomPayload => {
                v.push(FieldKind::Text);
                v.push(FieldKind::BytesShort);
            },
            ClientPacketKind::StatusRequest => {
            },
            ClientPacketKind::StatusPing => {
                v.push(FieldKind::Long);
            },
        }
        assert(v@ =~= self.spec_fields());
        v
    }
}

/// The schema registered for a packet received in `state` with this id.
pub open spec fn spec_server_packet_kind(state: ConnectionState, id: i32) -> Option<ServerPacketKind> {
    match state {
        ConnectionState::Login => match id {
            0x00 => Some(ServerPacketKind::LoginDisconnect),
            0x01 => Some(ServerPacketKind::EncryptionRequest),
            0x02 => Some(ServerPacketKind::LoginSuccess),
            _ => None,
        },
        ConnectionState::Play => match id {
            0x00 => Some(ServerPacketKind::KeepAlive),
            0x01 => Some(ServerPacketKind::JoinGame),
            0x02 => Some(ServerPacketKind::ChatMessage),
            0x03 => Some(ServerPacketKind::TimeUpdate),
            0x04 => Some(ServerPacketKind::EntityEquipment),
            0x05 => Some(ServerPacketKind::SpawnPosition),
            0x06 => Some(ServerPacketKind::UpdateHealth),
            0x07 => Some(ServerPacketKind::Respawn),
            0x08 => Some(ServerPacketKind::PlayerPositionAndLook),
            0x09 => Some(ServerPacketKind::HeldItemChange),
            0x0A => Some(ServerPacketKind::UseBed),
            0x0B => Some(ServerPacketKind::Animation),
            0x0C => Some(ServerPacketKind::SpawnPlayer),
            0x0D => Some(ServerPacketKind::CollectItem),
            0x0E => Some(ServerPacketKind::SpawnObject),
            0x0F => Some(ServerPacketKind::SpawnMob),
            0x10 => Some(ServerPacketKind::SpawnPainting),
            0x11 => Some(ServerPacketKind::SpawnExperienceOrb),
            0x12 => Some(ServerPacketKind::EntityVelocity),
            0x13 => Some(ServerPacketKind::DestroyEntities),
            0x14 => Some(ServerPacketKind::Entity),
            0x15 => Some(ServerPacketKind::EntityRelMove),
            0x16 => Some(ServerPacketKind::EntityLookAndMovement),
            0x17 => Some(ServerPacketKind::EntityLookMove),
            0x18 => Some(ServerPacketKind::EntityTeleport),
            0x19 => Some(ServerPacketKind::EntityStatus),
            0x1A => Some(ServerPacketKind::AttachEntity),
            0x1B => Some(ServerPacketKind::EntityMetadata),
            0x1C => Some(ServerPacketKind::EntityEffect),
            0x1D => Some(ServerPacketKind::RemoveEntityEffect),
            0x1E => Some(ServerPacketKind::Experience),
            0x1F => Some(ServerPacketKind::SetExperience),
            0x20 => Some(ServerPacketKind::EntityProperties),
            0x21 => Some(ServerPacketKind::ChunkData),
            0x22 => Some(ServerPacketKind::MultiBlockChange),
            0x23 => Some(ServerPacketKind::BlockChange),
            0x26 => Some(ServerPacketKind::MapChunkBulk),
            0x27 => Some(ServerPacketKind::Explosion),
            0x28 => Some(ServerPacketKind::Effect),
            0x29 => Some(ServerPacketKind::SoundEffect),
            0x2B => Some(ServerPacketKind::ChangeGameState),
            0x2E => Some(ServerPacketKind::CloseWindow),
            0x2F => Some(ServerPacketKind::SetSlot),
            0x30 => Some(ServerPacketKind::WindowItems),
            0x35 => Some(ServerPacketKind::UpdateTileEntity),
            0x37 => Some(ServerPacketKind::Statistics),
            0x38 => Some(ServerPacketKind::PlayerListItem),
            0x39 => Some(ServerPacketKind::PlayerAbilities),
            0x3F => Some(ServerPacketKind::CustomPayload),
            _ => None,
        },
        _ => None,
    }
}

pub fn server_packet_kind(state: ConnectionState, id: i32) -> (r: Option<ServerPacketKind>)
    ensures
        r == spec_server_packet_kind(state, id),
{
    match state {
        ConnectionState::Login => match id {
            0x00 => Some(ServerPacketKind::LoginDisconnect),
            0x01 => Some(ServerPacketKind::EncryptionRequest),
            0x02 => Some(ServerPacketKind::LoginSuccess),
            _ => None,
        },
        ConnectionState::Play => match id {
            0x00 => Some(ServerPacketKind::KeepAlive),
            0x01 => Some(ServerPacketKind::JoinGame),
            0x02 => Some(ServerPacketKind::ChatMessage),
            0x03 => Some(ServerPacketKind::TimeUpdate),
            0x04 => Some(ServerPacketKind::EntityEquipment),
            0x05 => Some(ServerPacketKind::SpawnPosition),
            0x06 => Some(ServerPacketKind::UpdateHealth),
            0x07 => Some(ServerPacketKind::Respawn),
            0x08 => Some(ServerPacketKind::PlayerPositionAndLook),
            0x09 => Some(ServerPacketKind::HeldItemChange),
            0x0A => Some(ServerPacketKind::UseBed),
            0x0B => Some(ServerPacketKind::Animation),
            0x0C => Some(ServerPacketKind::SpawnPlayer),
            0x0D => Some(ServerPacketKind::CollectItem),
            0x0E => Some(ServerPacketKind::SpawnObject),
            0x0F => Some(ServerPacketKind::SpawnMob),
            0x10 => Some(ServerPacketKind::SpawnPainting),
            0x11 => Some(ServerPacketKind::SpawnExperienceOrb),
            0x12 => Some(ServerPacketKind::EntityVelocity),
            0x13 => Some(ServerPacketKind::DestroyEntities),
            0x14 => Some(ServerPacketKind::Entity),
            0x15 => Some(ServerPacketKind::EntityRelMove),
            0x16 => Some(ServerPacketKind::EntityLookAndMovement),
            0x17 => Some(ServerPacketKind::EntityLookMove),
            0x18 => Some(ServerPacketKind::EntityTeleport),
            0x19 => Some(ServerPacketKind::EntityStatus),
            0x1A => Some(ServerPacketKind::AttachEntity),
            0x1B => Some(ServerPacketKind::EntityMetadata),
            0x1C => Some(ServerPacketKind::EntityEffect),
            0x1D => Some(ServerPacketKind::RemoveEntityEffect),
            0x1E => Some(ServerPacketKind::Experience),
            0x1F => Some(ServerPacketKind::SetExperience),
            0x20 => Some(ServerPacketKind::EntityProperties),
            0x21 => Some(ServerPacketKind::ChunkData),
            0x22 => Some(ServerPacketKind::MultiBlockChange),
            0x23 => Some(ServerPacketKind::BlockChange),
            0x26 => Some(ServerPacketKind::MapChunkBulk),
            0x27 => Some(ServerPacketKind::Explosion),
            0x28 => Some(ServerPacketKind::Effect),
            0x29 => Some(ServerPacketKind::SoundEffect),
            0x2B => Some(ServerPacketKind::ChangeGameState),
            0x2E => Some(ServerPacketKind::CloseWindow),
            0x2F => Some(ServerPacketKind::SetSlot),
            0x30 => Some(ServerPacketKind::WindowItems),
            0x35 => Some(ServerPacketKind::UpdateTileEntity),
            0x37 => Some(ServerPacketKind::Statistics),
            0x38 => Some(ServerPacketKind::PlayerListItem),
            0x39 => Some(ServerPacketKind::PlayerAbilities),
            0x3F => Some(ServerPacketKind::CustomPayload),
            _ => None,
        },
        _ => None,
    }
}

/// The schema of a packet the client sends in `state` with this id.
pub open spec fn spec_client_packet_kind(state: ConnectionState, id: i32) -> Option<ClientPacketKind> {
    match state {
        ConnectionState::Handshaking => match id {
            0x00 => Some(ClientPacketKind::Handshake),
            _ => None,
        },
        ConnectionState::Login => match id {
            0x00 => Some(ClientPacketKind::LoginStart),
            0x01 => Some(ClientPacketKind::EncryptionResponse),
            _ => None,
        },
        ConnectionState::Play => match id {
            0x00 => Some(ClientPacketKind::KeepAlive),
            0x01 => Some(ClientPacketKind::ChatMessage),
            0x06 => Some(ClientPacketKind::PlayerPosLook),
            0x15 => Some(ClientPacketKind::ClientSettings),
            0x16 => Some(ClientPacketKind::ClientStatus),
            0x17 => Some(ClientPacketKind::CustomPayload),
            _ => None,
        },
        ConnectionState::Status => match id {
            0x00 => Some(ClientPacketKind::StatusRequest),
            0x01 => Some(ClientPacketKind::StatusPing),
            _ => None,
        },
        _ => None,
    }
}

pub fn client_packet_kind(state: ConnectionState, id: i32) -> (r: Option<ClientPacketKind>)
    ensures
        r == spec_client_packet_kind(state, id),
{
    match state {
        ConnectionState::Handshaking => match id {
            0x00 => Some(ClientPacketKind::Handshake),
            _ => None,
        },
        ConnectionState::Login => match id {
            0x00 => Some(ClientPacketKind::LoginStart),
            0x01 => Some(ClientPacketKind::EncryptionResponse),
            _ => None,
        },
        ConnectionState::Play => match id {
            0x00 => Some(ClientPacketKind::KeepAlive),
            0x01 => Some(ClientPacketKind::ChatMessage),
            0x06 => Some(ClientPacketKind::PlayerPosLook),
            0x15 => Some(ClientPacketKind::ClientSettings),
            0x16 => Some(ClientPacketKind::ClientStatus),
            0x17 => Some(ClientPacketKind::CustomPayload),
            _ => None,
        },
        ConnectionState::Status => match id {
            0x00 => Some(ClientPacketKind::StatusRequest),
            0x01 => Some(ClientPacketKind::StatusPing),
            _ => None,
        },
        _ => None,
    }
}

/// Every entry of the received-packet registry is a packet that the server
/// sends, with the id and phase it is registered under.
pub proof fn lemma_server_registry_consistent(state: ConnectionState, id: i32)
    ensures
        spec_server_packet_kind(state, id) matches Some(k) ==> k.spec_id() == id && k.spec_state() == state
            && k.spec_bound() == Bound::Server,
{
}

/// Every packet the client sends is found in its table under its own id and
/// phase.
pub proof fn lemma_client_table_consistent(k: ClientPacketKind)
    ensures
        spec_client_packet_kind(k.spec_state(), k.spec_id()) == Some(k),
        k.spec_bound() == Bound::Client,
{
}

} // verus!
