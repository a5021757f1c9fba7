//! Versions of the stream format.

use vstd::prelude::*;

verus! {

/// The version byte that follows the magic bytes of a stream.
#[derive(Clone, Copy, Debug, PartialEq, Eq, Structural)]
pub enum Version {
    /// The first version of the format.
    V1,
    /// Any version byte that is not known to this library.
    Unknown(u8),
}

impl Version {
    /// The version that a version byte stands for.
    pub open spec fn of_byte(byte: u8) -> Version {
        if byte == 1 {
            Version::V1
        } else {
            Version::Unknown(byte)
        }
    }

    /// The byte that a version is written as.
    pub open spec fn byte(self) -> u8 {
        match self {
            Version::V1 => 1u8,
            Version::Unknown(byte) => byte,
        }
    }

    /// Reads a version byte.
    pub fn from_u8(byte: u8) -> (version: Version)
        ensures
            version == Version::of_byte(byte),
    {
        if byte == 1 {
            Version::V1
        } else {
            Version::Unknown(byte)
        }
    }

    /// The byte that this version is written as.
    pub fn to_u8(self) -> (byte: u8)
        ensures
            byte == self.byte(),
    {
        match self {
            Version::V1 => 1,
            Version::Unknown(byte) => byte,
        }
    }
}

/// A version byte reads back as it was written, and one stands for the first
/// version of the format and no other byte does.
pub proof fn law_version_byte_round_trip(byte: u8)
    ensures
        Version::of_byte(byte).byte() == byte,
        Version::of_byte(byte) == Version::V1 <==> byte == 1,
        Version::V1.byte() == 1,
{
}

} // verus!
