use vstd::prelude::*;

use crate::encoding::{hex_encode, hex_of, lemma_hex_len};

verus! {

/// A stored password: the slow hash and the salt that went into it.
pub struct PasswordHash {
    pub value: String,
    pub salt: String,
}

/// Why hashing or checking a password failed.
#[derive(Clone, Copy, PartialEq, Eq, Structural, Debug)]
pub enum CredentialError {
    /// The hash function could not run (its random source failed).
    HashingFailed,
    /// The stored hash cannot be read.
    MalformedHash,
    /// The password does not match the stored hash.
    InvalidPassword,
}

/// What bcrypt's `verify(password, hash)` answers: `None` where the hash cannot be read.
pub uninterp spec fn bcrypt_verify_of(password: Seq<char>, hash: Seq<char>) -> Option<bool>;

/// Relies on rand's `random`: sixteen bytes from the thread's generator.
#[verifier::external_body]
fn random_salt() -> (r: Vec<u8>)
    ensures
        r@.len() == 16,
{
    let salt: [u8; 16] = rand::random();
    salt.to_vec()
}

/// Relies on bcrypt's `hash` at its default cost: it draws a fresh bcrypt salt and fails
/// only where the system's random source fails; `verify` recomputes the hash from the
/// cost and salt written in it, so it accepts the same password.
#[verifier::external_body]
fn bcrypt_hash(password: &str) -> (r: Option<String>)
    ensures
        match r {
            Some(h) => bcrypt_verify_of(password@, h@) == Some(true),
            None => true,
        },
{
    bcrypt::hash(password, bcrypt::DEFAULT_COST).ok()
}

/// Relies on bcrypt's `verify`: the answer depends on the password and the hash alone.
#[verifier::external_body]
fn bcrypt_verify(password: &str, hash: &str) -> (r: Option<bool>)
    ensures
        r == bcrypt_verify_of(password@, hash@),
{
    bcrypt::verify(password, hash).ok()
}

/// The text that is hashed: the salt in double quotes, then the password, then the pepper.
/// The quotes delimit the salt; every stored hash was made over exactly this text, so the
/// form is fixed.
pub open spec fn salted(salt: Seq<char>, password: Seq<char>, pepper: Seq<char>) -> Seq<char> {
    seq!['"'] + salt + seq!['"'] + password + pepper
}

/// `value` is a hash of `password` with `pepper` under `salt`, which is 16 bytes in hex.
pub open spec fn hashed_from(value: Seq<char>, salt: Seq<char>, password: Seq<char>, pepper: Seq<char>) -> bool {
    &&& exists|b: Seq<u8>| b.len() == 16 && salt == hex_of(b)
    &&& bcrypt_verify_of(salted(salt, password, pepper), value) == Some(true)
}

/// The password check succeeds on these values.
pub open spec fn password_matches(
    password: Seq<char>,
    stored_hash: Seq<char>,
    stored_salt: Seq<char>,
    pepper: Seq<char>,
) -> bool {
    bcrypt_verify_of(salted(stored_salt, password, pepper), stored_hash) == Some(true)
}

/// Builds the text that is hashed for `password` under `salt` and `pepper`.
pub fn salted_input(salt: &str, password: &str, pepper: &str) -> (r: String)
    ensures
        r@ == salted(salt@, password@, pepper@),
{
    let quote = "\"";
    proof {
        reveal_strlit("\"");
    }
    let mut s = String::new();
    s.append(quote);
    s.append(salt);
    s.append(quote);
    s.append(password);
    s.append(pepper);
    proof {
        assert(s@ =~= salted(salt@, password@, pepper@));
    }
    s
}

/// Hashes `password` under the salt `salt` (written in hex) and the server-wide `pepper`;
/// returns the hash and the hex salt.
pub fn password_hash_with_salt(password: &str, pepper: &str, salt: &Vec<u8>) -> (r: Result<
    PasswordHash,
    CredentialError,
>)
    ensures
        match r {
            Ok(ph) => ph.salt@ == hex_of(salt@) && bcrypt_verify_of(
                salted(ph.salt@, password@, pepper@),
                ph.value@,
            ) == Some(true),
            Err(e) => e == CredentialError::HashingFailed,
        },
{
    let salt_hex = hex_encode(salt);
    let input = salted_input(salt_hex.as_str(), password, pepper);
    match bcrypt_hash(input.as_str()) {
        Some(value) => Ok(PasswordHash { value, salt: salt_hex }),
        None => Err(CredentialError::HashingFailed),
    }
}

/// Hashes `password` with a fresh random salt of 16 bytes and the server-wide `pepper`;
/// returns the hash and the salt, which is stored beside it (the pepper is not).
pub fn generate_password_hash(password: &str, pepper: &str) -> (r: Result<PasswordHash, CredentialError>)
    ensures
        match r {
            Ok(ph) => hashed_from(ph.value@, ph.salt@, password@, pepper@) && ph.salt@.len() == 32,
            Err(e) => e == CredentialError::HashingFailed,
        },
{
    let salt = random_salt();
    proof {
        lemma_hex_len(salt@);
    }
    password_hash_with_salt(password, pepper, &salt)
}

/// What a bcrypt answer means for a password check.
pub fn password_verdict(outcome: Option<bool>) -> (r: Result<(), CredentialError>)
    ensures
        r == match outcome {
            Some(true) => Ok(()),
            Some(false) => Err(CredentialError::InvalidPassword),
            None => Err(CredentialError::MalformedHash),
        },
{
    match outcome {
        Some(true) => Ok(()),
        Some(false) => Err(CredentialError::InvalidPassword),
        None => Err(CredentialError::MalformedHash),
    }
}

/// Checks `input_password` against a stored hash and salt, with the server-wide `pepper`.
pub fn verify_password(input_password: &str, stored_hash: &str, stored_salt: &str, pepper: &str) -> (r:
    Result<(), CredentialError>)
    ensures
        r == match bcrypt_verify_of(salted(stored_salt@, input_password@, pepper@), stored_hash@) {
            Some(true) => Ok(()),
            Some(false) => Err(CredentialError::InvalidPassword),
            None => Err(CredentialError::MalformedHash),
        },
        r is Ok <==> password_matches(input_password@, stored_hash@, stored_salt@, pepper@),
{
    let input = salted_input(stored_salt, input_password, pepper);
    password_verdict(bcrypt_verify(input.as_str(), stored_hash))
}

} // verus!
