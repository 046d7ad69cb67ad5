//! The federation relay: signed envelopes out to a peer's topic, and the
//! check that decides which received envelopes are forwarded upstream.

use vstd::prelude::*;
use vstd::string::StringExecFns;
use vstd::utf8::encode_utf8;
use crate::discovery::{rfc3339_defined, rfc3339_of, rfc3339_text};
use crate::registry::ServerRegistry;
use crate::signing::{
    base64_decoded, ed25519_accepts, ed25519_keypair_accepted, ed25519_signature_of, keypair_matches, sign_message,
    signature_text, signature_valid, verify_signature,
};
use crate::types::{FederationEvent, MyceliumMessage, ServerInfo};

verus! {

/// Namespace of the per-peer relay topics.
pub const FEDERATION_TOPIC_PREFIX: &'static str = "matrix.federation.";

/// Envelope format version written by this node.
pub const ENVELOPE_VERSION: &'static str = "1.0";

/// Message type of a relayed application event.
pub const FEDERATION_MESSAGE_TYPE: &'static str = "federation_event";

/// Seconds between two polls of this node's relay topic.
pub const FEDERATION_POLL_INTERVAL_SECS: u64 = 5;

/// Extra seconds to wait after a failed poll of the relay topic.
pub const FEDERATION_RETRY_BACKOFF_SECS: u64 = 10;

/// The topic on which the peer named `destination` receives envelopes.
pub fn federation_topic(destination: &str) -> (r: String)
    ensures
        r@ == FEDERATION_TOPIC_PREFIX@ + destination@,
{
    let mut topic = FEDERATION_TOPIC_PREFIX.to_owned();
    topic.append(destination);
    topic
}

/// Wraps `event` in an envelope from `source_server`, stamped `now`, with
/// the payload signed by `keypair`. `None` exactly when the keypair cannot
/// sign or `now` has no calendar form. With a matched keypair the signature
/// verifies under its public half.
pub fn translate_to_mycelium(event: FederationEvent, source_server: String, keypair: &[u8], now: i64) -> (r: Option<MyceliumMessage>)
    ensures
        r matches Some(m) ==> {
            &&& m.version@ == ENVELOPE_VERSION@
            &&& m.source_server == source_server
            &&& m.destination_server == event.destination
            &&& m.message_type@ == FEDERATION_MESSAGE_TYPE@
            &&& m.timestamp@ == rfc3339_of(now as int)
            &&& m.payload == event.event_data
            &&& signature_text(keypair@, encode_utf8(m.payload@)) == Some(m.signature@)
        },
        keypair@.len() != 64 ==> r is None,
        r is Some <==> (ed25519_keypair_accepted(keypair@) && rfc3339_defined(now as int)),
        r matches Some(m) ==> base64_decoded(m.signature@) == Some(
            ed25519_signature_of(keypair@, encode_utf8(m.payload@)),
        ),
        r matches Some(m) ==> (keypair_matches(keypair@) ==> ed25519_accepts(
            keypair@.subrange(32, 64),
            encode_utf8(m.payload@),
            ed25519_signature_of(keypair@, encode_utf8(m.payload@)),
        )),
{
    let signature = match sign_message(keypair, event.event_data.as_str().as_bytes()) {
        Some(s) => s,
        None => return None,
    };
    let timestamp = match rfc3339_text(now) {
        Some(t) => t,
        None => return None,
    };
    Some(MyceliumMessage {
        version: ENVELOPE_VERSION.to_owned(),
        source_server,
        destination_server: event.destination,
        message_type: FEDERATION_MESSAGE_TYPE.to_owned(),
        timestamp,
        payload: event.event_data,
        signature,
    })
}

/// Whether the envelope's signature over its payload verifies under the
/// base64 `public_key`.
pub fn verify_federation_message(message: &MyceliumMessage, public_key: &str) -> (r: bool)
    ensures
        r == signature_valid(encode_utf8(message.payload@), message.signature@, public_key@),
{
    verify_signature(message.payload.as_str().as_bytes(), message.signature.as_str(), public_key)
}

/// An envelope from a peer in the directory whose signature verifies under
/// that peer's key.
pub open spec fn envelope_accepted(dir: Map<Seq<char>, ServerInfo>, m: MyceliumMessage) -> bool {
    dir.contains_key(m.source_server@) && signature_valid(
        encode_utf8(m.payload@),
        m.signature@,
        dir[m.source_server@].public_key@,
    )
}

/// Checks one received envelope against the directory.
pub fn accept_envelope(directory: &ServerRegistry, message: &MyceliumMessage) -> (r: bool)
    requires
        directory.wf(),
    ensures
        r == envelope_accepted(directory@, *message),
{
    match directory.get(message.source_server.as_str()) {
        Some(peer) => verify_federation_message(message, peer.public_key.as_str()),
        None => false,
    }
}

/// The payloads to forward upstream from one poll's batch of decoded
/// envelopes: those of the accepted envelopes, in order. An envelope from
/// an unknown peer or with a bad signature is dropped.
pub fn messages_to_forward(directory: &ServerRegistry, messages: Vec<MyceliumMessage>) -> (r: Vec<String>)
    requires
        directory.wf(),
    ensures
        r@ == messages@.filter(|m: MyceliumMessage| envelope_accepted(directory@, m)).map_values(
            |m: MyceliumMessage| m.payload,
        ),
{
    let ghost msgs = messages@;
    let ghost ok = |m: MyceliumMessage| envelope_accepted(directory@, m);
    let ghost pay = |m: MyceliumMessage| m.payload;
    let mut batch = messages;
    let n = batch.len();
    let mut out: Vec<String> = Vec::new();
    let mut i: usize = 0;
    while i < n
        invariant
            n == msgs.len(),
            directory.wf(),
            ok == (|m: MyceliumMessage| envelope_accepted(directory@, m)),
            pay == (|m: MyceliumMessage| m.payload),
            0 <= i <= n,
            batch@ == msgs.subrange(i as int, n as int),
            out@ == msgs.take(i as int).filter(ok).map_values(pay),
        decreases n - i,
    {
        let m = batch.remove(0);
        proof {
            assert(m == msgs[i as int]);
            assert(batch@ =~= msgs.subrange(i + 1, n as int));
            assert(msgs.take(i + 1) =~= msgs.take(i as int).push(m));
            msgs.take(i as int).lemma_filter_push(m, ok);
        }
        if accept_envelope(directory, &m) {
            let ghost o0 = out@;
            out.push(m.payload);
            proof {
                assert(ok(m));
                let f = msgs.take(i as int).filter(ok);
                assert(f.push(m).map_values(pay) =~= f.map_values(pay).push(m.payload));
            }
        } else {
            proof {
                assert(!ok(m));
            }
        }
        i = i + 1;
    }
    proof {
        assert(msgs.take(n as int) =~= msgs);
    }
    out
}

/// Seconds the relay poll loop waits before its next poll.
pub fn federation_poll_delay(poll_succeeded: bool) -> (r: u64)
    ensures
        r == if poll_succeeded {
            FEDERATION_POLL_INTERVAL_SECS as int
        } else {
            FEDERATION_POLL_INTERVAL_SECS + FEDERATION_RETRY_BACKOFF_SECS
        },
{
    if poll_succeeded {
        FEDERATION_POLL_INTERVAL_SECS
    } else {
        FEDERATION_POLL_INTERVAL_SECS + FEDERATION_RETRY_BACKOFF_SECS
    }
}

} // verus!
