//! Records exchanged between the components: peer records, announcements,
//! relay envelopes and events.

use vstd::prelude::*;

verus! {

/// Health of a peer as last recorded by this node.
#[derive(Clone, Copy, Debug, PartialEq, Eq, Structural)]
pub enum ServerStatus {
    Online,
    Offline,
    Unknown,
}

/// Capacity that a peer reports about itself. `available` is asserted by the
/// peer and never recomputed by the receiver.
#[derive(Clone, Copy, Debug, PartialEq, Eq, Structural)]
pub struct ServerCapacity {
    pub max_users: u32,
    pub current_users: u32,
    pub available: bool,
}

/// One entry of the peer directory, keyed by `server_name`.
/// `last_seen` is the local receipt time, in seconds since the Unix epoch.
#[derive(Clone, Debug)]
pub struct ServerInfo {
    pub server_name: String,
    pub mycelium_address: String,
    pub public_key: String,
    pub capabilities: Vec<String>,
    pub capacity: ServerCapacity,
    pub last_seen: i64,
    pub status: ServerStatus,
}

/// A peer's signed self-description, as broadcast on the discovery topic.
/// `public_key` and `signature` are base64 text.
#[derive(Clone, Debug)]
pub struct ServerAnnouncement {
    pub server_name: String,
    pub mycelium_address: String,
    pub public_key: String,
    pub capabilities: Vec<String>,
    pub capacity: ServerCapacity,
    pub timestamp: String,
    pub signature: String,
}

/// An application event to be relayed to the peer named `destination`.
/// `event_data` is JSON text.
#[derive(Clone, Debug)]
pub struct FederationEvent {
    pub destination: String,
    pub event_type: String,
    pub event_data: String,
}

/// A signed relay envelope. `payload` is JSON text and `signature` is the
/// base64 signature over the UTF-8 bytes of `payload`.
#[derive(Clone, Debug)]
pub struct MyceliumMessage {
    pub version: String,
    pub source_server: String,
    pub destination_server: String,
    pub message_type: String,
    pub timestamp: String,
    pub payload: String,
    pub signature: String,
}

/// True when `caps` holds a tag equal to `cap`.
pub open spec fn has_capability(caps: Seq<String>, cap: Seq<char>) -> bool {
    exists|i: int| 0 <= i < caps.len() && (#[trigger] caps[i])@ == cap
}

/// Membership test on a capability list.
pub fn contains_capability(caps: &Vec<String>, cap: &String) -> (r: bool)
    ensures
        r == has_capability(caps@, cap@),
{
    let mut i: usize = 0;
    while i < caps.len()
        invariant
            0 <= i <= caps.len(),
            forall|j: int| 0 <= j < i ==> (#[trigger] caps@[j])@ != cap@,
        decreases caps.len() - i,
    {
        if caps[i] == *cap {
            return true;
        }
        i = i + 1;
    }
    false
}

} // verus!
