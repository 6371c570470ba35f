//! Signed transfer records: Ed25519-signed messages between two parties
//! named by their base64-encoded public keys.
//!
//! The message that is signed is the colon-separated text of sender,
//! receiver, amount and timestamp; verification rebuilds that text and
//! checks the signature against the sender's decoded public key.

use vstd::prelude::*;

use base64::Engine;
use ring::signature::KeyPair;

use crate::textenc::dec_chars;
use crate::textenc::u64_to_string;

verus! {

// ---------------------------------------------------------------------
// trusted access to ring's Ed25519 and to base64
// ---------------------------------------------------------------------
#[verifier::external_type_specification]
#[verifier::external_body]
pub struct ExEd25519KeyPair(ring::signature::Ed25519KeyPair);

#[verifier::external_type_specification]
#[verifier::external_body]
pub struct ExSystemRandom(ring::rand::SystemRandom);

/// The base64 text of a byte string, standard alphabet with padding.
pub uninterp spec fn b64_of(b: Seq<u8>) -> Seq<char>;

/// What decoding base64 text gives back, or nothing when the text is not
/// valid base64.
pub uninterp spec fn b64_decode_of(s: Seq<char>) -> Option<Seq<u8>>;

/// Whether an Ed25519 signature over a message verifies under a public
/// key; a function of the three byte strings alone.
pub uninterp spec fn ed25519_verifies(pk: Seq<u8>, msg: Seq<u8>, sig: Seq<u8>) -> bool;

/// Relies on base64's standard engine encode: four output characters per
/// three input bytes, and decoding the output gives the input back.
#[verifier::external_body]
pub fn b64_encode(b: &[u8]) -> (r: String)
    ensures
        r@ == b64_of(b@),
        b64_decode_of(r@) == Some(b@),
        r@.len() == 4 * ((b@.len() + 2) / 3),
{
    base64::engine::general_purpose::STANDARD.encode(b)
}

/// Relies on base64's standard engine decode: the inverse of encode,
/// rejecting text that is not base64.
#[verifier::external_body]
pub fn b64_decode(s: &str) -> (r: Option<Vec<u8>>)
    ensures
        match r {
            Some(v) => b64_decode_of(s@) == Some(v@),
            None => b64_decode_of(s@) is None,
        },
{
    base64::engine::general_purpose::STANDARD.decode(s).ok()
}

/// Relies on ring::rand::SystemRandom::new: a handle to the system's
/// secure random number generator.
#[verifier::external_body]
pub fn new_system_random() -> ring::rand::SystemRandom {
    ring::rand::SystemRandom::new()
}

/// Relies on ring::signature::Ed25519KeyPair::generate_pkcs8: a fresh
/// key pair, serialized as a PKCS#8 document.
#[verifier::external_body]
pub fn generate_pkcs8(rng: &ring::rand::SystemRandom) -> (r: Option<Vec<u8>>) {
    match ring::signature::Ed25519KeyPair::generate_pkcs8(rng) {
        Ok(doc) => Some(doc.as_ref().to_vec()),
        Err(_) => None,
    }
}

/// Relies on ring::signature::Ed25519KeyPair::from_pkcs8: reads a key
/// pair back from a PKCS#8 document, rejecting malformed input.
#[verifier::external_body]
pub fn keypair_from_pkcs8(pkcs8: &[u8]) -> (r: Option<ring::signature::Ed25519KeyPair>) {
    ring::signature::Ed25519KeyPair::from_pkcs8(pkcs8).ok()
}

/// Relies on Ed25519KeyPair::public_key: the key pair's public key, 32
/// bytes for Ed25519.
#[verifier::external_body]
pub fn keypair_public_key(keypair: &ring::signature::Ed25519KeyPair) -> (r: Vec<u8>)
    ensures
        r@.len() == 32,
{
    keypair.public_key().as_ref().to_vec()
}

/// Relies on Ed25519KeyPair::sign: an Ed25519 signature over the message,
/// 64 bytes.
#[verifier::external_body]
pub fn keypair_sign(keypair: &ring::signature::Ed25519KeyPair, msg: &[u8]) -> (r: Vec<u8>)
    ensures
        r@.len() == 64,
{
    keypair.sign(msg).as_ref().to_vec()
}

/// Relies on ring's UnparsedPublicKey::verify with ED25519: whether the
/// signature verifies, a function of key, message and signature alone.
#[verifier::external_body]
pub fn ed25519_verify(pk: &[u8], msg: &[u8], sig: &[u8]) -> (r: bool)
    ensures
        r == ed25519_verifies(pk@, msg@, sig@),
{
    ring::signature::UnparsedPublicKey::new(&ring::signature::ED25519, pk).verify(msg, sig).is_ok()
}

// ---------------------------------------------------------------------
// the records themselves
// ---------------------------------------------------------------------
/// A party of a transfer, named by its base64-encoded public key.
pub struct NodeId {
    /// The base64 text of the party's public key.
    pub pub_id: String,
}

impl Clone for NodeId {
    /// A cloned party name equals the original.
    fn clone(&self) -> (r: Self)
        ensures
            r == *self,
    {
        NodeId { pub_id: self.pub_id.clone() }
    }
}

impl NodeId {
    /// The party name of a public key.
    pub fn from_public_key(pk: &[u8]) -> (r: NodeId)
        ensures
            r.pub_id@ == b64_of(pk@),
            r.pub_id@.len() == 4 * ((pk@.len() + 2) / 3),
    {
        NodeId { pub_id: b64_encode(pk) }
    }

    /// The party name as text.
    pub fn to_string(&self) -> (r: String)
        ensures
            r@ == self.pub_id@,
    {
        self.pub_id.clone()
    }

    /// Generates a fresh key pair: the party name of its public key, and
    /// the PKCS#8 document holding the private key.  Nothing is promised
    /// of the random key itself; generation can fail if the system's
    /// generator does.
    pub fn generate() -> (r: Option<(NodeId, Vec<u8>)>)
        ensures
            r matches Some(p) ==> p.0.pub_id@.len() == 44,
    {
        let rng = new_system_random();
        let pkcs8 = match generate_pkcs8(&rng) {
            Some(d) => d,
            None => {
                return None;
            },
        };
        let keypair = match keypair_from_pkcs8(pkcs8.as_slice()) {
            Some(k) => k,
            None => {
                return None;
            },
        };
        let pk = keypair_public_key(&keypair);
        let node_id = NodeId::from_public_key(pk.as_slice());
        Some((node_id, pkcs8))
    }
}

/// The text that is signed: sender, receiver, amount and timestamp,
/// separated by colons.
pub open spec fn message_chars(
    sender: Seq<char>,
    receiver: Seq<char>,
    amount: u64,
    timestamp: u64,
) -> Seq<char> {
    sender + ":"@ + receiver + ":"@ + dec_chars(amount as nat) + ":"@ + dec_chars(
        timestamp as nat,
    )
}

/// Builds the signed text for the given fields.
fn build_message(sender: &String, receiver: &String, amount: u64, timestamp: u64) -> (r: String)
    ensures
        r@ == message_chars(sender@, receiver@, amount, timestamp),
{
    let mut out = sender.clone();
    out.append(":");
    out.append(receiver.as_str());
    out.append(":");
    let amount_text = u64_to_string(amount);
    out.append(amount_text.as_str());
    out.append(":");
    let ts_text = u64_to_string(timestamp);
    out.append(ts_text.as_str());
    out
}

/// A signed transfer record.
pub struct Transaction {
    /// The sending party.
    pub sender: NodeId,
    /// The receiving party.
    pub receiver: NodeId,
    /// The amount transferred, in whole currency units.
    pub amount: u64,
    /// The Ed25519 signature over the record's text.
    pub trans_signature: Vec<u8>,
    /// When the record was signed, in seconds since the epoch.
    pub timestamp: u64,
}

impl Transaction {
    /// A record from its parts; the caller's clock supplies the time.
    pub fn new(sender: NodeId, receiver: NodeId, amount: u64, trans_signature: Vec<u8>, timestamp: u64) -> (r: Transaction)
        ensures
            r.sender == sender,
            r.receiver == receiver,
            r.amount == amount,
            r.trans_signature@ == trans_signature@,
            r.timestamp == timestamp,
    {
        Transaction { sender, receiver, amount, trans_signature, timestamp }
    }

    /// Signs a transfer from the holder of `sender_keypair` to `receiver`:
    /// the sender is named by the key pair's public key, and the signature
    /// covers the record's text.  The caller's clock supplies the time.
    pub fn sign(sender_keypair: &ring::signature::Ed25519KeyPair, receiver: NodeId, amount: u64, timestamp: u64) -> (r: Transaction)
        ensures
            r.receiver == receiver,
            r.amount == amount,
            r.timestamp == timestamp,
            r.trans_signature@.len() == 64,
    {
        let pk = keypair_public_key(sender_keypair);
        let sender = NodeId::from_public_key(pk.as_slice());
        let message = build_message(&sender.pub_id, &receiver.pub_id, amount, timestamp);
        let msg_bytes = message.as_str().as_bytes_vec();
        let signature = keypair_sign(sender_keypair, msg_bytes.as_slice());
        Transaction { sender, receiver, amount, trans_signature: signature, timestamp }
    }

    /// Whether the record's signature verifies: the sender's name must
    /// decode as a public key under which the signature covers the
    /// record's rebuilt text.  A name that is not base64 verifies as
    /// nothing.
    pub fn verify_signature(&self) -> (r: bool)
        ensures
            r == (match b64_decode_of(self.sender.pub_id@) {
                Some(pk) => ed25519_verifies(
                    pk,
                    vstd::utf8::encode_utf8(
                        message_chars(
                            self.sender.pub_id@,
                            self.receiver.pub_id@,
                            self.amount,
                            self.timestamp,
                        ),
                    ),
                    self.trans_signature@,
                ),
                None => false,
            }),
    {
        let message = build_message(
            &self.sender.pub_id,
            &self.receiver.pub_id,
            self.amount,
            self.timestamp,
        );
        let pk = match b64_decode(self.sender.pub_id.as_str()) {
            Some(v) => v,
            None => {
                return false;
            },
        };
        let msg_bytes = message.as_str().as_bytes_vec();
        ed25519_verify(pk.as_slice(), msg_bytes.as_slice(), self.trans_signature.as_slice())
    }
}

} // verus!
