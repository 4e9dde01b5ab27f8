//! The answer of a status ping, as the caller reports it.
use vstd::prelude::*;

verus! {

/// What a server says of itself in answer to a status ping, and how long
/// the ping took.
#[derive(Clone, Debug)]
pub struct PingResponse {
    pub motd: String,
    pub version_name: String,
    pub protocol: i32,
    pub online_players: u32,
    pub max_players: u32,
    pub latency_ms: u128,
}

} // verus!
