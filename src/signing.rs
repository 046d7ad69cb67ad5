//! Detached Ed25519 signatures over byte strings, carried as base64 text.

use vstd::prelude::*;

verus! {

/// The Ed25519 signature that a 64-byte keypair (secret half, then public
/// half) makes over a message.
pub uninterp spec fn ed25519_signature_of(keypair: Seq<u8>, msg: Seq<u8>) -> Seq<u8>;

/// Whether Ed25519 verification accepts a signature over a message under a
/// public key.
pub uninterp spec fn ed25519_accepts(public_key: Seq<u8>, msg: Seq<u8>, sig: Seq<u8>) -> bool;

/// Whether 64 bytes are a keypair that Ed25519 signing takes: the length is
/// right and the public half is a curve point.
pub uninterp spec fn ed25519_keypair_accepted(keypair: Seq<u8>) -> bool;

/// The Ed25519 public key that a 32-byte secret key derives.
pub uninterp spec fn ed25519_public_of(secret: Seq<u8>) -> Seq<u8>;

/// A 64-byte keypair whose public half is the key its secret half derives.
pub open spec fn keypair_matches(keypair: Seq<u8>) -> bool {
    keypair.len() == 64 && keypair.subrange(32, 64) == ed25519_public_of(keypair.subrange(0, 32))
}

/// The standard (padded) base64 text of a byte string.
pub uninterp spec fn base64_of(bytes: Seq<u8>) -> Seq<char>;

/// The bytes that standard base64 text decodes to, if it is well formed.
pub uninterp spec fn base64_decoded(text: Seq<char>) -> Option<Seq<u8>>;

/// Relies on ed25519_dalek 1.0 `Keypair::from_bytes` and `Signer::sign`:
/// `from_bytes` refuses a length other than 64 and a public half that does
/// not decompress, and nothing else (a derived public half always
/// decompresses); signing never fails, is deterministic in the keypair and
/// the message, gives 64 bytes, and verifies under the public half when that
/// half is the key the secret half derives.
#[verifier::external_body]
fn ed25519_sign(keypair: &[u8], msg: &[u8]) -> (r: Option<Vec<u8>>)
    ensures
        r is Some <==> ed25519_keypair_accepted(keypair@),
        r is Some ==> keypair@.len() == 64,
        keypair_matches(keypair@) ==> r is Some,
        r matches Some(s) ==> s@ == ed25519_signature_of(keypair@, msg@) && s@.len() == 64,
        r matches Some(s) ==> (keypair_matches(keypair@) ==> ed25519_accepts(keypair@.subrange(32, 64), msg@, s@)),
{
    match ed25519_dalek::Keypair::from_bytes(keypair) {
        Ok(kp) => Some(ed25519_dalek::Signer::sign(&kp, msg).to_bytes().to_vec()),
        Err(_) => None,
    }
}

/// Relies on ed25519_dalek 1.0 `PublicKey::from_bytes`, `Signature::from_bytes`
/// and `Verifier::verify`: a public key is 32 bytes and a signature 64 bytes,
/// and anything else is refused.
#[verifier::external_body]
fn ed25519_verify(public_key: &[u8], msg: &[u8], sig: &[u8]) -> (r: bool)
    ensures
        r == ed25519_accepts(public_key@, msg@, sig@),
        r ==> public_key@.len() == 32 && sig@.len() == 64,
{
    let key = match ed25519_dalek::PublicKey::from_bytes(public_key) {
        Ok(k) => k,
        Err(_) => return false,
    };
    match ed25519_dalek::Signature::from_bytes(sig) {
        Ok(s) => ed25519_dalek::Verifier::verify(&key, msg, &s).is_ok(),
        Err(_) => false,
    }
}

/// Relies on ed25519_dalek 1.0 `SecretKey::from_bytes` and
/// `PublicKey::from(&SecretKey)`: a secret key is any 32 bytes, and its
/// public key (32 bytes) depends on it alone.
#[verifier::external_body]
fn ed25519_public_key(secret: &[u8]) -> (r: Option<Vec<u8>>)
    ensures
        r is Some <==> secret@.len() == 32,
        r matches Some(p) ==> p@ == ed25519_public_of(secret@) && p@.len() == 32,
{
    match ed25519_dalek::SecretKey::from_bytes(secret) {
        Ok(sk) => Some(ed25519_dalek::PublicKey::from(&sk).to_bytes().to_vec()),
        Err(_) => None,
    }
}

/// Relies on base64 0.13 `encode`: standard alphabet with padding, which
/// `decode` turns back into the same bytes.
#[verifier::external_body]
fn base64_encode(bytes: &[u8]) -> (r: String)
    ensures
        r@ == base64_of(bytes@),
        base64_decoded(r@) == Some(bytes@),
{
    base64::encode(bytes)
}

/// Relies on base64 0.13 `decode`: standard alphabet with padding; malformed
/// text is an error.
#[verifier::external_body]
fn base64_decode(text: &str) -> (r: Option<Vec<u8>>)
    ensures
        match r {
            Some(v) => base64_decoded(text@) == Some(v@),
            None => base64_decoded(text@) is None,
        },
{
    match base64::decode(text) {
        Ok(v) => Some(v),
        Err(_) => None,
    }
}

/// The base64 text of the signature over `msg`, or `None` when `keypair` is
/// not a valid keypair.
pub open spec fn signature_text(keypair: Seq<u8>, msg: Seq<u8>) -> Option<Seq<char>> {
    if keypair.len() == 64 {
        Some(base64_of(ed25519_signature_of(keypair, msg)))
    } else {
        None
    }
}

/// Whether base64 `signature` is a valid signature over `msg` under the
/// base64 `public_key`.
pub open spec fn signature_valid(msg: Seq<u8>, signature: Seq<char>, public_key: Seq<char>) -> bool {
    match (base64_decoded(public_key), base64_decoded(signature)) {
        (Some(k), Some(s)) => ed25519_accepts(k, msg, s),
        _ => false,
    }
}

/// Signs `msg` with `keypair` and returns the signature as base64 text.
/// A keypair that is not 64 bytes, or whose public half is no curve point,
/// gives `None`. With a matched keypair the signature verifies under the
/// public half.
pub fn sign_message(keypair: &[u8], msg: &[u8]) -> (r: Option<String>)
    ensures
        r is Some <==> ed25519_keypair_accepted(keypair@),
        keypair@.len() != 64 ==> r is None,
        keypair_matches(keypair@) ==> r is Some,
        r matches Some(s) ==> signature_text(keypair@, msg@) == Some(s@),
        r matches Some(s) ==> base64_decoded(s@) == Some(ed25519_signature_of(keypair@, msg@)),
        r is Some && keypair_matches(keypair@) ==> ed25519_accepts(
            keypair@.subrange(32, 64),
            msg@,
            ed25519_signature_of(keypair@, msg@),
        ),
{
    match ed25519_sign(keypair, msg) {
        Some(sig) => Some(base64_encode(sig.as_slice())),
        None => None,
    }
}

/// Checks a base64 signature over `msg` against a base64 public key.
/// Malformed base64, a key of the wrong length or a signature that does not
/// verify all give `false`.
pub fn verify_signature(msg: &[u8], signature: &str, public_key: &str) -> (r: bool)
    ensures
        r == signature_valid(msg@, signature@, public_key@),
{
    let key = match base64_decode(public_key) {
        Some(k) => k,
        None => return false,
    };
    let sig = match base64_decode(signature) {
        Some(s) => s,
        None => return false,
    };
    ed25519_verify(key.as_slice(), msg, sig.as_slice())
}

/// The base64 text of the public half (the last 32 bytes) of a keypair.
pub fn public_key_text(keypair: &[u8]) -> (r: String)
    requires
        keypair@.len() == 64,
    ensures
        r@ == base64_of(keypair@.subrange(32, 64)),
        base64_decoded(r@) == Some(keypair@.subrange(32, 64)),
{
    let mut public: Vec<u8> = Vec::new();
    let mut i: usize = 32;
    while i < 64
        invariant
            32 <= i <= 64,
            keypair@.len() == 64,
            public@ == keypair@.subrange(32, i as int),
        decreases 64 - i,
    {
        public.push(keypair[i]);
        i = i + 1;
        assert(public@ =~= keypair@.subrange(32, i as int));
    }
    base64_encode(public.as_slice())
}

/// Whether `keypair` is 64 bytes whose public half is the key that its
/// secret half derives.
pub fn keypair_consistent(keypair: &[u8]) -> (r: bool)
    ensures
        r == keypair_matches(keypair@),
{
    if keypair.len() != 64 {
        return false;
    }
    let mut secret: Vec<u8> = Vec::new();
    let mut i: usize = 0;
    while i < 32
        invariant
            0 <= i <= 32,
            keypair@.len() == 64,
            secret@ == keypair@.subrange(0, i as int),
        decreases 32 - i,
    {
        secret.push(keypair[i]);
        i = i + 1;
        assert(secret@ =~= keypair@.subrange(0, i as int));
    }
    assert(secret@ == keypair@.subrange(0, 32));
    let public = match ed25519_public_key(secret.as_slice()) {
        Some(p) => p,
        None => return false,
    };
    assert(public@ == ed25519_public_of(keypair@.subrange(0, 32)));
    let mut j: usize = 0;
    while j < 32
        invariant
            0 <= j <= 32,
            keypair@.len() == 64,
            public@.len() == 32,
            public@ == ed25519_public_of(keypair@.subrange(0, 32)),
            forall|k: int| 0 <= k < j ==> public@[k] == keypair@[32 + k],
        decreases 32 - j,
    {
        if public[j] != keypair[32 + j] {
            assert(public@[j as int] != keypair@.subrange(32, 64)[j as int]);
            assert(public@ != keypair@.subrange(32, 64));
            return false;
        }
        j = j + 1;
    }
    assert(public@ =~= keypair@.subrange(32, 64));
    true
}

} // verus!
