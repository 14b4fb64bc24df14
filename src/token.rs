use hmac::Mac;
use vstd::prelude::*;

use crate::encoding::{decimal, decimal_of, hex_encode, hex_of, lemma_hex_len};

verus! {

/// The HMAC-SHA256 tag of the message's UTF-8 bytes under the key's UTF-8 bytes.
pub uninterp spec fn hmac_sha256_of(key: Seq<char>, message: Seq<char>) -> Seq<u8>;

/// Relies on hmac's `Hmac<Sha256>`: `new_from_slice` takes a key of any length, and the
/// tag depends on the key and the message alone; it has 32 bytes.
#[verifier::external_body]
fn hmac_sha256(key: &str, message: &str) -> (r: Option<Vec<u8>>)
    ensures
        r is Some,
        r->0@ == hmac_sha256_of(key@, message@),
        r->0@.len() == 32,
{
    match hmac::Hmac::<sha2::Sha256>::new_from_slice(key.as_bytes()) {
        Ok(mut mac) => {
            mac.update(message.as_bytes());
            Some(mac.finalize().into_bytes().to_vec())
        },
        Err(_) => None,
    }
}

/// Relies on uuid's `Uuid::new_v4` and its `Display`: a random UUID, hyphenated, 36
/// characters.
#[verifier::external_body]
fn new_nonce() -> (r: String)
    ensures
        r@.len() == 36,
{
    uuid::Uuid::new_v4().to_string()
}

/// The session token for `user_id` under `secret_key` with the nonce `nonce`: the keyed
/// hash of the user id in decimal followed by the nonce, in hex.
pub open spec fn token_of(user_id: i32, secret_key: Seq<char>, nonce: Seq<char>) -> Seq<char> {
    hex_of(hmac_sha256_of(secret_key, decimal_of(user_id as int) + nonce))
}

/// The session token for `user_id` under `secret_key` with a given nonce.
pub fn session_token(user_id: i32, secret_key: &str, nonce: &str) -> (r: String)
    ensures
        r@ == token_of(user_id, secret_key@, nonce@),
        r@.len() == 64,
{
    let mut message = decimal(user_id);
    message.append(nonce);
    let digest = hmac_sha256(secret_key, message.as_str());
    match digest {
        Some(d) => {
            proof {
                lemma_hex_len(d@);
            }
            hex_encode(&d)
        },
        None => String::new(),
    }
}

/// A fresh opaque session token for `user_id`: the keyed hash under `secret_key` of the
/// user id and a random nonce.
pub fn generate_session_id(user_id: i32, secret_key: &str) -> (r: String)
    ensures
        exists|nonce: Seq<char>| nonce.len() == 36 && r@ == token_of(user_id, secret_key@, nonce),
        r@.len() == 64,
{
    let nonce = new_nonce();
    session_token(user_id, secret_key, nonce.as_str())
}

} // verus!
