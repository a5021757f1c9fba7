//! The errors of the library.

use vstd::prelude::*;

verus! {

/// What can go wrong while a stream is written or read.
#[derive(Clone, Copy, Debug, PartialEq, Eq, Structural)]
pub enum SaltlickError {
    /// The stream does not begin with the magic bytes.
    BadMagic,
    /// A part of the stream could not be decrypted.
    DecryptionFailure,
    /// The stream has already been finalized.
    Finalized,
    /// A raw key does not have the length of a key.
    InvalidKeyLength,
    /// The stream was encrypted for another public key.
    PublicKeyMismatch,
    /// No secret key was found for the public key of the stream.
    SecretKeyNotFound,
    /// The encrypted stream could not be started.
    StreamStartFailure,
    /// The stream has a version that is not supported.
    UnsupportedVersion,
}

impl SaltlickError {
    /// The name of an error.
    pub open spec fn label(self) -> Seq<char> {
        match self {
            SaltlickError::BadMagic => "BadMagic"@,
            SaltlickError::DecryptionFailure => "DecryptionFailure"@,
            SaltlickError::Finalized => "Finalized"@,
            SaltlickError::InvalidKeyLength => "InvalidKeyLength"@,
            SaltlickError::PublicKeyMismatch => "PublicKeyMismatch"@,
            SaltlickError::SecretKeyNotFound => "SecretKeyNotFound"@,
            SaltlickError::StreamStartFailure => "StreamStartFailure"@,
            SaltlickError::UnsupportedVersion => "UnsupportedVersion"@,
        }
    }

    /// The name of this error.
    pub fn name(&self) -> (name: &'static str)
        ensures
            name@ == self.label(),
    {
        match self {
            SaltlickError::BadMagic => "BadMagic",
            SaltlickError::DecryptionFailure => "DecryptionFailure",
            SaltlickError::Finalized => "Finalized",
            SaltlickError::InvalidKeyLength => "InvalidKeyLength",
            SaltlickError::PublicKeyMismatch => "PublicKeyMismatch",
            SaltlickError::SecretKeyNotFound => "SecretKeyNotFound",
            SaltlickError::StreamStartFailure => "StreamStartFailure",
            SaltlickError::UnsupportedVersion => "UnsupportedVersion",
        }
    }
}

/// The name of an error tells the error: different errors have different names.
pub proof fn law_label_tells_error(left: SaltlickError, right: SaltlickError)
    requires
        left.label() == right.label(),
    ensures
        left == right,
{
    reveal_strlit("BadMagic");
    reveal_strlit("DecryptionFailure");
    reveal_strlit("Finalized");
    reveal_strlit("InvalidKeyLength");
    reveal_strlit("PublicKeyMismatch");
    reveal_strlit("SecretKeyNotFound");
    reveal_strlit("StreamStartFailure");
    reveal_strlit("UnsupportedVersion");
    assert("BadMagic"@.len() == 8);
    assert("Finalized"@.len() == 9);
    assert("InvalidKeyLength"@.len() == 16);
    assert("DecryptionFailure"@.len() == 17 && "DecryptionFailure"@[0] == 'D');
    assert("PublicKeyMismatch"@.len() == 17 && "PublicKeyMismatch"@[0] == 'P');
    assert("SecretKeyNotFound"@.len() == 17 && "SecretKeyNotFound"@[0] == 'S');
    assert("StreamStartFailure"@.len() == 18 && "StreamStartFailure"@[0] == 'S');
    assert("UnsupportedVersion"@.len() == 18 && "UnsupportedVersion"@[0] == 'U');
}

} // verus!
