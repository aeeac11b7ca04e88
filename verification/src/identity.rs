//! Node identity: the id that a node announces, derived from its stored
//! Ed25519 key (or, in the older scheme, a stored random UUID).

use vstd::prelude::*;

use crate::text::{trim, trim_text};

verus! {

/// The lowercase hexadecimal digit for `n`, which is below 16.
pub open spec fn hex_digit(n: u8) -> char {
    if n < 10 {
        (48 + n) as char
    } else {
        (87 + n) as char
    }
}

/// The lowercase hexadecimal text of `bytes`: two digits per byte, the high
/// half first.
pub open spec fn hex_lower(bytes: Seq<u8>) -> Seq<char>
    decreases bytes.len(),
{
    if bytes.len() == 0 {
        Seq::empty()
    } else {
        hex_lower(bytes.drop_last()) + seq![
            hex_digit(bytes.last() >> 4),
            hex_digit(bytes.last() & 0x0f),
        ]
    }
}

/// Two hexadecimal digits per byte.
pub proof fn lemma_hex_lower_len(bytes: Seq<u8>)
    ensures
        hex_lower(bytes).len() == 2 * bytes.len(),
    decreases bytes.len(),
{
    if bytes.len() > 0 {
        lemma_hex_lower_len(bytes.drop_last());
    }
}

/// Calls `hex::encode`, which writes each byte of `data` as two lowercase
/// hexadecimal digits, the high half first. The contract restates that.
#[verifier::external_body]
fn hex_encode(data: &[u8]) -> (s: String)
    ensures
        s@ == hex_lower(data@),
{
    hex::encode(data)
}

/// The Ed25519 public key that belongs to the 32-byte secret key `secret`.
pub uninterp spec fn ed25519_public_key(secret: Seq<u8>) -> Seq<u8>;

/// Calls `ed25519_dalek::SigningKey::verifying_key` on the signing key made
/// from `secret` by `SigningKey::from_bytes`, and gives the key's bytes by
/// `VerifyingKey::to_bytes`. The contract names the result: it depends on
/// `secret` alone.
#[verifier::external_body]
fn ed25519_public_key_of(secret: &[u8; 32]) -> (pk: [u8; 32])
    ensures
        pk@ == ed25519_public_key(secret@),
{
    ed25519_dalek::SigningKey::from_bytes(secret).verifying_key().to_bytes()
}

/// Calls `ed25519_dalek::SigningKey::generate` with the operating system's
/// random source `rand_core::OsRng` and gives the new secret key's bytes by
/// `SigningKey::to_bytes`. The result is random: nothing is promised of it
/// beyond its type.
#[verifier::external_body]
fn generate_secret_key() -> (secret: [u8; 32]) {
    let mut rng = rand_core::OsRng;
    ed25519_dalek::SigningKey::generate(&mut rng).to_bytes()
}

/// The node id that belongs to a secret key: its public key in lowercase
/// hexadecimal.
pub open spec fn node_id_of(secret: Seq<u8>) -> Seq<char> {
    hex_lower(ed25519_public_key(secret))
}

/// Derives the node id from a secret key.
pub fn node_id_from_secret(secret: &[u8; 32]) -> (id: String)
    ensures
        id@ == node_id_of(secret@),
        id@.len() == 64,
{
    let pk = ed25519_public_key_of(secret);
    proof {
        lemma_hex_lower_len(pk@);
    }
    hex_encode(&pk)
}

/// Copies a 32-byte slice into an array.
fn secret_from_slice(b: &[u8]) -> (r: [u8; 32])
    requires
        b@.len() == 32,
    ensures
        r@ == b@,
{
    let mut r = [0u8; 32];
    let mut i: usize = 0;
    while i < 32
        invariant
            b@.len() == 32,
            i <= 32,
            forall|j: int| 0 <= j < i ==> r@[j] == b@[j],
        decreases 32 - i,
    {
        r[i] = b[i];
        i = i + 1;
    }
    assert(r@ =~= b@);
    r
}

/// The identity of a node: its id, and the secret key to store when a new
/// one was made.
#[derive(Debug)]
pub struct Identity {
    pub node_id: String,
    pub new_secret: Option<[u8; 32]>,
}

/// Decides the node identity from what the key file held. A stored key of
/// exactly 32 bytes is used as it is; anything else (no file, or a file of
/// another length) gets a freshly generated key, which the caller stores.
pub fn identity_from_stored_key(stored: Option<&[u8]>) -> (r: Identity)
    ensures
        match stored {
            Some(b) if b@.len() == 32 => r.new_secret is None && r.node_id@ == node_id_of(b@),
            _ => r.new_secret is Some && r.node_id@ == node_id_of(r.new_secret->0@),
        },
        r.node_id@.len() == 64,
{
    match stored {
        Some(b) => {
            if b.len() == 32 {
                let secret = secret_from_slice(b);
                return Identity { node_id: node_id_from_secret(&secret), new_secret: None };
            }
        },
        None => {},
    }
    let secret = generate_secret_key();
    Identity { node_id: node_id_from_secret(&secret), new_secret: Some(secret) }
}

/// Whether `s` is the hyphenated lowercase text of a random (version 4,
/// RFC 4122 variant) UUID.
pub open spec fn is_uuid_v4_text(s: Seq<char>) -> bool {
    &&& s.len() == 36
    &&& forall|i: int|
        0 <= i < 36 ==> if i == 8 || i == 13 || i == 18 || i == 23 {
            s[i] == '-'
        } else {
            exists|n: u8| n < 16 && s[i] == #[trigger] hex_digit(n)
        }
    &&& s[14] == '4'
    &&& (s[19] == '8' || s[19] == '9' || s[19] == 'a' || s[19] == 'b')
}

/// Calls `uuid::Uuid::new_v4` and writes the UUID by its `Display`, which
/// gives the hyphenated lowercase form. The UUID is random; the contract
/// states the form that every outcome has.
#[verifier::external_body]
fn new_uuid_text() -> (s: String)
    ensures
        is_uuid_v4_text(s@),
{
    uuid::Uuid::new_v4().to_string()
}

/// Decides the node id of the older UUID scheme from what the id file held:
/// the stored text without surrounding whitespace, or, when there was none
/// to read, a new random UUID that the caller stores.
pub fn node_id_from_stored_text(stored: Option<&str>) -> (r: (String, bool))
    ensures
        match stored {
            Some(t) => r.0@ == trim(t@) && !r.1,
            None => is_uuid_v4_text(r.0@) && r.1,
        },
{
    match stored {
        Some(t) => (trim_text(t), false),
        None => (new_uuid_text(), true),
    }
}

} // verus!
