//! Keys, versions, buffers and errors.

use saltlick::crypter::{Decrypter, Encrypter, MultiBuf};
use saltlick::version::Version;
use saltlick::{gen_keypair, PublicKey, SaltlickError, SecretKey};

#[test]
fn raw_keys_have_the_length_of_a_key() {
    for n in [0, 31, 33, 64] {
        let raw = vec![1u8; n];
        assert_eq!(
            SaltlickError::InvalidKeyLength,
            PublicKey::from_raw_curve25519(&raw).unwrap_err()
        );
        assert_eq!(
            SaltlickError::InvalidKeyLength,
            SecretKey::from_raw_curve25519(&raw).unwrap_err()
        );
    }
    assert!(PublicKey::from_raw_curve25519(&[1; 32]).is_ok());
    assert!(SecretKey::from_raw_curve25519(&[1; 32]).is_ok());
}

#[test]
fn public_key_keeps_its_bytes() {
    let raw: Vec<u8> = (0..32).collect();
    let key = PublicKey::from_raw_curve25519(&raw).unwrap();
    assert_eq!(&raw[..], key.as_bytes());
}

#[test]
fn public_keys_are_equal_by_their_bytes() {
    let (first, _) = gen_keypair();
    let (second, _) = gen_keypair();
    let copy = PublicKey::from_raw_curve25519(first.as_bytes()).unwrap();
    assert!(first == copy);
    assert!(first != second);
    let mut raw = first.as_bytes().to_vec();
    raw[31] ^= 0x80;
    assert!(first != PublicKey::from_raw_curve25519(&raw).unwrap());
}

#[test]
fn generated_keys_belong_together() {
    let (public, secret) = gen_keypair();
    let (other_public, other_secret) = gen_keypair();
    assert!(public != other_public);
    for (sealed_for, opened_with, opens) in [
        (public, secret, true),
        (other_public, SecretKey::from_raw_curve25519(&[1; 32]).unwrap(), false),
        (other_public, other_secret, true),
    ] {
        let ciphertext = Encrypter::new(sealed_for).push(&[1], true).unwrap();
        let mut decrypter = Decrypter::new(sealed_for, opened_with);
        assert_eq!(opens, decrypter.pull(&ciphertext.to_vec()).is_ok());
        assert_eq!(opens, decrypter.is_finalized());
    }
}

#[test]
fn version_bytes() {
    assert_eq!(Version::V1, Version::from_u8(1));
    assert_eq!(Version::Unknown(0), Version::from_u8(0));
    assert_eq!(Version::Unknown(2), Version::from_u8(2));
    for byte in 0..=255u8 {
        assert_eq!(byte, Version::from_u8(byte).to_u8());
    }
}

#[test]
fn buffer_joins_its_chunks() {
    let mut buffer = MultiBuf::new();
    assert_eq!(Vec::<u8>::new(), buffer.to_vec());
    buffer.push(vec![1, 2]);
    buffer.push(vec![]);
    buffer.push(vec![3]);
    let mut other = MultiBuf::new();
    other.push(vec![4]);
    other.push(vec![5, 6]);
    buffer.extend(other);
    buffer.extend(MultiBuf::new());
    assert_eq!(vec![1, 2, 3, 4, 5, 6], buffer.to_vec());
}

#[test]
fn error_names() {
    for (error, name) in [
        (SaltlickError::BadMagic, "BadMagic"),
        (SaltlickError::DecryptionFailure, "DecryptionFailure"),
        (SaltlickError::Finalized, "Finalized"),
        (SaltlickError::InvalidKeyLength, "InvalidKeyLength"),
        (SaltlickError::PublicKeyMismatch, "PublicKeyMismatch"),
        (SaltlickError::SecretKeyNotFound, "SecretKeyNotFound"),
        (SaltlickError::StreamStartFailure, "StreamStartFailure"),
        (SaltlickError::UnsupportedVersion, "UnsupportedVersion"),
    ] {
        assert_eq!(name, error.name());
        assert_eq!(name, format!("{:?}", error));
    }
}
