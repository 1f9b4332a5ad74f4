//! Peer identity: the signing secret a sender or receiver runs under.
//!
//! An override, when present, must parse as a secret key or the whole
//! operation fails fast; with no override a fresh random identity is drawn
//! for this process run and never persisted, so every restart without the
//! override yields a new peer identity. The host reads the override from its
//! environment and passes it in.

use vstd::prelude::*;
use crate::error::SendmeError;

verus! {

/// The 32 key bytes a piece of text parses to, if any. The result depends
/// on the text alone.
pub uninterp spec fn secret_key_of(s: Seq<char>) -> Option<Seq<u8>>;

/// Relies on `iroh::SecretKey::from_str` and `SecretKey::to_bytes`: the text
/// either parses to a 32-byte secret key or is rejected, and which depends
/// on the text alone.
#[verifier::external_body]
fn parse_secret_key(s: &str) -> (r: Option<Vec<u8>>)
    ensures
        match r {
            Some(b) => secret_key_of(s@) == Some(b@) && b@.len() == 32,
            None => secret_key_of(s@) is None,
        },
{
    match <iroh::SecretKey as core::str::FromStr>::from_str(s) {
        Ok(k) => Some(k.to_bytes().to_vec()),
        Err(_) => None,
    }
}

/// Relies on `rand::Rng::fill`: fills the buffer from the thread's random
/// generator. Nothing is assumed of the drawn values, only the length.
#[verifier::external_body]
pub fn random_bytes(n: usize) -> (r: Vec<u8>)
    ensures
        r@.len() == n,
{
    let mut buf = vec![0u8; n];
    rand::Rng::fill(&mut rand::rng(), buf.as_mut_slice());
    buf
}

/// Resolve the identity secret: parse the override if one is set — failing
/// fast with `InvalidSecret` if it does not parse — or draw a fresh random
/// 32-byte secret.
pub fn resolve_secret(env_override: Option<String>) -> (r: Result<Vec<u8>, SendmeError>)
    ensures
        match env_override {
            Some(s) => match r {
                Ok(b) => secret_key_of(s@) == Some(b@) && b@.len() == 32,
                Err(e) => secret_key_of(s@) is None && e matches SendmeError::InvalidSecret { .. },
            },
            None => (r matches Ok(b) && b@.len() == 32),
        },
{
    match env_override {
        Some(s) => match parse_secret_key(s.as_str()) {
            Some(b) => Ok(b),
            None => Err(SendmeError::InvalidSecret { cause: "invalid secret".to_owned() }),
        },
        None => Ok(random_bytes(32)),
    }
}

} // verus!
