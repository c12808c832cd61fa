//! Password hashes: Argon2 with a random salt.

use vstd::prelude::*;
use crate::types::BingoError;

verus! {

/// The number of bytes in a salt.
pub const SALT_BYTES: usize = 16;

/// The longest password, in bytes, that can be hashed.
pub const MAX_PASSWORD_BYTES: usize = 0xFFFF_FFFF;

/// The error type of the `argon2` crate. Nothing is known of a value of it.
#[verifier::external_type_specification]
#[verifier::external_body]
pub struct ExArgon2Error(argon2::Error);

/// The encoded hash that `argon2::hash_encoded` gives for a password and a
/// salt under the crate's default configuration, where it gives one.
pub uninterp spec fn argon2_encoded(password: Seq<char>, salt: Seq<u8>) -> Seq<char>;

/// What `argon2::verify_encoded` finds for an encoded hash and a password:
/// whether the password matches, or `None` where the call fails.
pub uninterp spec fn argon2_verified(encoded: Seq<char>, password: Seq<char>) -> Option<bool>;

/// The bytes of a password as they are hashed.
pub open spec fn password_bytes(password: Seq<char>) -> Seq<u8> {
    vstd::utf8::encode_utf8(password)
}

/// One byte from `quad_rand::gen_range(0u8, u8::MAX)`.
///
/// Trusted: the crate scales a random fraction below one into the range and
/// cuts the fraction off, so the upper bound itself never comes out.
#[verifier::external_body]
fn random_salt_byte() -> (byte: u8)
    ensures
        byte < u8::MAX,
{
    quad_rand::gen_range(0u8, u8::MAX)
}

/// Calls `argon2::hash_encoded` on the password's bytes and the salt, with
/// `argon2::Config::default()`.
///
/// Trusted: with that configuration and a salt of sixteen bytes the call
/// checks only the password's length, so it succeeds exactly when the
/// password has at most `MAX_PASSWORD_BYTES` bytes; what it then returns is
/// the encoded hash that `argon2_encoded` names.
#[verifier::external_body]
fn encode_with_salt(password: &str, salt: &[u8; 16]) -> (r: Result<String, argon2::Error>)
    ensures
        r is Ok <==> password_bytes(password@).len() <= MAX_PASSWORD_BYTES,
        r matches Ok(encoded) ==> encoded@ == argon2_encoded(password@, salt@),
{
    argon2::hash_encoded(password.as_bytes(), salt, &argon2::Config::default())
}

/// Calls `argon2::verify_encoded` on the encoded hash and the password's
/// bytes.
///
/// Trusted: the result depends on the two arguments alone; it is what
/// `argon2_verified` names.
#[verifier::external_body]
fn verify_encoded(encoded: &str, password: &str) -> (r: Result<bool, argon2::Error>)
    ensures
        match r {
            Ok(matches) => argon2_verified(encoded@, password@) == Some(matches),
            Err(_) => argon2_verified(encoded@, password@) is None,
        },
{
    argon2::verify_encoded(encoded, password.as_bytes())
}

/// The text of an `argon2::Error`, from its `Display` impl. Nothing is
/// claimed of it.
#[verifier::external_body]
pub(crate) fn argon2_error_text(cause: &argon2::Error) -> String {
    cause.to_string()
}

/// Whether every byte of a salt is one that the generator can give.
pub open spec fn is_salt(salt: Seq<u8>) -> bool {
    salt.len() == SALT_BYTES && forall|i: int| 0 <= i < salt.len() ==> salt[i] < u8::MAX
}

/// `encoded` is the hash of the password under some salt that the generator
/// can give.
pub open spec fn is_hash_of(encoded: Seq<char>, password: Seq<char>) -> bool {
    exists|salt: Seq<u8>| is_salt(salt) && encoded == #[trigger] argon2_encoded(password, salt)
}

/// Generates a random salt.
pub fn generate_salt() -> (salt: [u8; 16])
    ensures
        is_salt(salt@),
{
    let mut salt = [0u8; 16];
    let mut i: usize = 0;
    while i < SALT_BYTES
        invariant
            i <= SALT_BYTES,
            forall|j: int| 0 <= j < i ==> salt@[j] < u8::MAX,
        decreases SALT_BYTES - i,
    {
        salt[i] = random_salt_byte();
        i += 1;
    }
    salt
}

/// Hashes a password with the given salt. Fails exactly when the password has
/// more than `MAX_PASSWORD_BYTES` bytes.
pub fn hash_password_with_salt(password: &str, salt: &[u8; 16]) -> (r: Result<String, BingoError>)
    ensures
        r is Ok <==> password_bytes(password@).len() <= MAX_PASSWORD_BYTES,
        r matches Ok(encoded) ==> encoded@ == argon2_encoded(password@, salt@),
        r matches Err(e) ==> e is Hashing,
{
    match encode_with_salt(password, salt) {
        Ok(encoded) => Ok(encoded),
        Err(cause) => Err(BingoError::Hashing(cause)),
    }
}

/// Hashes a password with a fresh random salt. Fails exactly when the
/// password has more than `MAX_PASSWORD_BYTES` bytes.
pub fn hash_password(password: &str) -> (r: Result<String, BingoError>)
    ensures
        r is Ok <==> password_bytes(password@).len() <= MAX_PASSWORD_BYTES,
        r matches Ok(encoded) ==> is_hash_of(encoded@, password@),
        r matches Err(e) ==> e is Hashing,
{
    let salt = generate_salt();
    hash_password_with_salt(password, &salt)
}

/// Verifies a password against a stored hash: `Ok(true)` where it matches,
/// `Ok(false)` where it does not, and an error where the hash cannot be read.
pub fn verify_password(hash: &str, password: &str) -> (r: Result<bool, BingoError>)
    ensures
        match r {
            Ok(matches) => argon2_verified(hash@, password@) == Some(matches),
            Err(e) => argon2_verified(hash@, password@) is None && e is Hashing,
        },
{
    match verify_encoded(hash, password) {
        Ok(matches) => Ok(matches),
        Err(cause) => Err(BingoError::Hashing(cause)),
    }
}

} // verus!
