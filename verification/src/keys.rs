//! Credential handling: bcrypt password hashing, SHA-256 API-key hashing
//! with hexadecimal encoding, and random API-key generation.

use vstd::prelude::*;
use vstd::string::StringSliceAdditionalSpecFns;

verus! {

/// Key-management errors.
#[derive(Debug, Clone)]
pub enum KeyManagerError {
    /// A hashing call failed.
    HashError(String),
}

/// The SHA-256 digest of a byte sequence, as a value: a function of the
/// input alone.
pub uninterp spec fn sha256_of(data: Seq<u8>) -> Seq<u8>;

/// Relies on sha2::Sha256 (update then finalize): the 32-byte digest of the
/// input, a function of the input alone.
#[verifier::external_body]
fn sha256_digest(data: &[u8]) -> (r: Vec<u8>)
    ensures
        r@ == sha256_of(data@),
        r@.len() == 32,
{
    let mut hasher = <sha2::Sha256 as sha2::Digest>::new();
    sha2::Digest::update(&mut hasher, data);
    sha2::Digest::finalize(hasher).to_vec()
}

/// The lowercase hexadecimal text of a byte sequence, as a value: a
/// function of the input alone, two characters per byte.
pub uninterp spec fn hex_of(data: Seq<u8>) -> Seq<char>;

/// Relies on hex::encode: the lowercase hexadecimal text of the input, two
/// characters per byte, a function of the input alone.
#[verifier::external_body]
fn hex_encode(data: &Vec<u8>) -> (r: String)
    ensures
        r@ == hex_of(data@),
        r@.len() == 2 * data@.len(),
{
    hex::encode(data)
}

/// Relies on bcrypt::hash at the default cost: a salted hash of the
/// password. The salt is random, so nothing is promised of the text itself;
/// but the salt lives inside the hash, so bcrypt::verify accepts the
/// password against any hash this call returns.
#[verifier::external_body]
fn bcrypt_hash(password: &str) -> (r: Result<String, String>)
    ensures
        (match r {
            Ok(h) => bcrypt_verifies(password@, h@),
            Err(_) => true,
        }),
{
    match bcrypt::hash(password, bcrypt::DEFAULT_COST) {
        Ok(h) => Ok(h),
        Err(e) => Err(e.to_string()),
    }
}

/// Whether a bcrypt verification of `password` against `hash` succeeds: a
/// function of the two texts alone.
pub uninterp spec fn bcrypt_verifies(password: Seq<char>, hash: Seq<char>) -> bool;

/// Relies on bcrypt::verify: whether the password matches the salted hash,
/// a function of the two texts alone; verification errors count as a
/// mismatch.
#[verifier::external_body]
fn bcrypt_check(password: &str, hash: &str) -> (r: bool)
    ensures
        r == bcrypt_verifies(password@, hash@),
{
    bcrypt::verify(password, hash).unwrap_or(false)
}

/// Relies on rand::distr::Alphanumeric::sample_string over the thread rng:
/// 24 random alphanumeric characters; nothing is promised of the value
/// beyond the length.
#[verifier::external_body]
fn random_alphanumeric_24() -> (r: String)
    ensures
        r@.len() == 24,
{
    rand::distr::SampleString::sample_string(&rand::distr::Alphanumeric, &mut rand::rng(), 24)
}

/// Relies on subtle::ConstantTimeEq::ct_eq on byte slices: equality of the
/// two inputs, computed in constant time.
#[verifier::external_body]
fn constant_time_eq(a: &[u8], b: &[u8]) -> (r: bool)
    ensures
        r == (a@ == b@),
{
    subtle::ConstantTimeEq::ct_eq(a, b).into()
}

/// Manages secure hashing and verification of credentials.
pub struct KeyManager;

impl KeyManager {
    /// Hash a password with bcrypt under a fresh random salt: a returned
    /// hash verifies against the password it was made from.
    pub fn hash_password(password: &str) -> (r: Result<String, KeyManagerError>)
        ensures
            (match r {
                Err(e) => e is HashError,
                Ok(h) => bcrypt_verifies(password@, h@),
            }),
    {
        match bcrypt_hash(password) {
            Ok(h) => Ok(h),
            Err(e) => Err(KeyManagerError::HashError(e)),
        }
    }

    /// Verify a password against a bcrypt hash.
    pub fn verify_password(password: &str, hash: &str) -> (r: bool)
        ensures
            r == bcrypt_verifies(password@, hash@),
    {
        bcrypt_check(password, hash)
    }

    /// Hash an API key for storage: the lowercase hexadecimal form of its
    /// SHA-256 digest.
    pub fn hash_api_key(key: &str) -> (r: String)
        ensures
            r@ == hex_of(sha256_of(key.spec_bytes())),
            r@.len() == 64,
    {
        let digest = sha256_digest(key.as_bytes());
        hex_encode(&digest)
    }

    /// Generate an API key: the raw key handed to the user (prefix plus 24
    /// random alphanumerics), its storage hash, and the display prefix.
    pub fn generate_api_key() -> (r: (String, String, String))
        ensures
            r.0@.len() == "nas_sk_"@.len() + 24,
            crate::strutil::spec_starts_with(r.0@, "nas_sk_"@),
            r.1@ == hex_of(sha256_of(vstd::utf8::encode_utf8(r.0@))),
            r.2@ == "nas_sk_"@,
    {
        let random_part = random_alphanumeric_24();
        let mut raw_key = String::new();
        raw_key.append("nas_sk_");
        raw_key.append(random_part.as_str());
        let hash = KeyManager::hash_api_key(raw_key.as_str());
        proof {
            assert(raw_key@.subrange(0, "nas_sk_"@.len() as int) =~= "nas_sk_"@);
        }
        (raw_key, hash, "nas_sk_".to_owned())
    }

    /// Verify an API key against its stored SHA-256 hash, in constant time.
    pub fn verify_api_key(raw_key: &str, stored_hash: &str) -> (r: bool)
        ensures
            r == (vstd::utf8::encode_utf8(hex_of(sha256_of(raw_key.spec_bytes())))
                == stored_hash.spec_bytes()),
    {
        let hash = KeyManager::hash_api_key(raw_key);
        constant_time_eq(hash.as_str().as_bytes(), stored_hash.as_bytes())
    }
}

} // verus!
