//! Records of the messaging network's HTTP interface.

use vstd::prelude::*;

verus! {

/// A message as posted to, or read from, a topic.
#[derive(Clone, Debug)]
pub struct MyceliumMessage {
    pub topic: String,
    pub data: String,
}

/// What the local messaging node reports about itself.
#[derive(Clone, Debug)]
pub struct MyceliumInfo {
    pub address: String,
    pub public_key: String,
    pub peers: Vec<String>,
}

} // verus!
