//! Public and secret keys.

use sodiumoxide::crypto::box_::{PublicKey as BoxPublicKey, SecretKey as BoxSecretKey};
use vstd::prelude::*;

use crate::error::SaltlickError;
use crate::sodium;

verus! {

/// A Curve25519 public key: streams are encrypted for it.
#[derive(Clone, Copy, Debug)]
pub struct PublicKey {
    pub(crate) inner: BoxPublicKey,
}

/// A Curve25519 secret key: streams are decrypted with it.
#[derive(Debug)]
pub struct SecretKey {
    pub(crate) inner: BoxSecretKey,
}

impl View for PublicKey {
    type V = Seq<u8>;

    closed spec fn view(&self) -> Seq<u8> {
        sodium::box_public_key_bytes(self.inner)
    }
}

impl View for SecretKey {
    type V = Seq<u8>;

    closed spec fn view(&self) -> Seq<u8> {
        sodium::box_secret_key_bytes(self.inner)
    }
}

impl PublicKey {
    /// Every public key has the length of one.
    #[verifier::type_invariant]
    pub open spec fn has_key_length(self) -> bool {
        self@.len() == sodium::PUBLICKEYBYTES
    }
}

impl SecretKey {
    /// Every secret key has the length of one.
    #[verifier::type_invariant]
    pub open spec fn has_key_length(self) -> bool {
        self@.len() == sodium::SECRETKEYBYTES
    }
}

/// The bytes of a secret key, where there is one.
pub open spec fn secret_bytes(key: Option<SecretKey>) -> Option<Seq<u8>> {
    match key {
        Some(k) => Some(k@),
        None => None,
    }
}

/// Draws a new key pair at random.
pub fn gen_keypair() -> (pair: (PublicKey, SecretKey))
    ensures
        pair.0@.len() == sodium::PUBLICKEYBYTES,
        pair.1@.len() == sodium::SECRETKEYBYTES,
        pair.0@ == sodium::public_key_of(pair.1@),
{
    let (public_key, secret_key) = sodium::box_keypair();
    (PublicKey { inner: public_key }, SecretKey { inner: secret_key })
}

impl PublicKey {
    /// The key with the given raw bytes.
    pub fn from_raw_curve25519(raw: &[u8]) -> (key: Result<PublicKey, SaltlickError>)
        ensures
            key is Ok <==> raw@.len() == sodium::PUBLICKEYBYTES,
            key matches Ok(k) ==> k@ == raw@,
            key matches Err(e) ==> e == SaltlickError::InvalidKeyLength,
    {
        match sodium::box_public_key(raw) {
            Some(inner) => Ok(PublicKey { inner }),
            None => Err(SaltlickError::InvalidKeyLength),
        }
    }

    /// The raw bytes of the key.
    pub fn as_bytes(&self) -> (bytes: &[u8])
        ensures
            bytes@ == self@,
            bytes@.len() == sodium::PUBLICKEYBYTES,
    {
        sodium::box_public_key_slice(&self.inner)
    }
}

impl SecretKey {
    /// The key with the given raw bytes.
    pub fn from_raw_curve25519(raw: &[u8]) -> (key: Result<SecretKey, SaltlickError>)
        ensures
            key is Ok <==> raw@.len() == sodium::SECRETKEYBYTES,
            key matches Ok(k) ==> k@ == raw@,
            key matches Err(e) ==> e == SaltlickError::InvalidKeyLength,
    {
        match sodium::box_secret_key(raw) {
            Some(inner) => Ok(SecretKey { inner }),
            None => Err(SaltlickError::InvalidKeyLength),
        }
    }
}

impl PartialEq for PublicKey {
    fn eq(&self, other: &PublicKey) -> (same: bool) {
        sodium::same_bytes(self.as_bytes(), other.as_bytes())
    }
}

impl vstd::std_specs::cmp::PartialEqSpecImpl for PublicKey {
    open spec fn obeys_eq_spec() -> bool {
        true
    }

    open spec fn eq_spec(&self, other: &PublicKey) -> bool {
        self@ == other@
    }
}

impl Eq for PublicKey {

}

/// Public keys are equal exactly when their bytes are.
pub proof fn law_keys_equal_by_bytes(left: PublicKey, right: PublicKey)
    ensures
        vstd::std_specs::cmp::PartialEqSpec::eq_spec(&left, &right) <==> left@ == right@,
{
}

} // verus!
