//! Client side of a legacy length-framed game-server protocol: the field
//! codec, the packet schema, the frame decoder, the connection state
//! machine, the stream cipher, the key exchange and session hash, the bulk
//! chunk splitter, and the status and query side protocols' data.

pub mod error;
pub mod codec;
pub mod fields;
pub mod schema;
pub mod packets;
pub mod connection;
pub mod cipher;
pub mod auth;
pub mod crypto;
pub mod chunk;
pub mod status;
pub mod query;
