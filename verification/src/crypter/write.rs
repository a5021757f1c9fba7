//! Writing the preamble of a stream.

use sodiumoxide::crypto::secretstream::{Header, Key};
use vstd::prelude::*;

use crate::key::PublicKey;
use crate::sodium::{self, PUBLICKEYBYTES};
use crate::version::Version;
use crate::wire::{self, MAGIC, PREHEADER_LEN};

verus! {

/// The magic bytes and the version.
pub fn preheader(version: Version) -> (header: Vec<u8>)
    ensures
        header@ == wire::preheader(version),
        header@.len() == 9,
        header@.take(8) == seq![0x53u8, 0x41, 0x4c, 0x54, 0x4c, 0x49, 0x43, 0x4b],
        header@[8] == version.byte(),
{
    let mut header: Vec<u8> = Vec::new();
    header.extend_from_slice(MAGIC.as_slice());
    header.push(version.to_u8());
    assert(header@.take(8) =~= MAGIC@);
    assert(MAGIC@ =~= seq![0x53u8, 0x41, 0x4c, 0x54, 0x4c, 0x49, 0x43, 0x4b]);
    header
}

/// The preamble that ends in the given box.
pub fn header_v1_with(sealed: &[u8], public_key: &PublicKey) -> (header: Vec<u8>)
    ensures
        header@ == wire::preheader(Version::V1) + public_key@ + sealed@,
        header@ == seq![0x53u8, 0x41, 0x4c, 0x54, 0x4c, 0x49, 0x43, 0x4b, 1] + public_key@
            + sealed@,
        public_key@.len() == PUBLICKEYBYTES,
{
    let mut header = preheader(Version::V1);
    assert(header@ =~= seq![0x53u8, 0x41, 0x4c, 0x54, 0x4c, 0x49, 0x43, 0x4b, 1]);
    header.extend_from_slice(public_key.as_bytes());
    header.extend_from_slice(sealed);
    header
}

/// The preamble of a stream for the owner of the public key: the stream key and
/// the stream header are sealed in it.
pub fn header_v1(symmetric_key: &Key, stream_header: &Header, public_key: &PublicKey) -> (header:
    Vec<u8>)
    ensures
        wire::is_preamble(
            header@,
            public_key@,
            sodium::stream_key_bytes(*symmetric_key),
            sodium::stream_header_bytes(*stream_header),
        ),
        header@.len() == 145,
        header@.take(41) == seq![0x53u8, 0x41, 0x4c, 0x54, 0x4c, 0x49, 0x43, 0x4b, 1] + public_key@,
        forall|secret_key: Seq<u8>|
            secret_key.len() == 32 && #[trigger] sodium::public_key_of(secret_key) == public_key@
                ==> sodium::box_opened(header@.skip(41), public_key@, secret_key) == Some(
                sodium::stream_key_bytes(*symmetric_key) + sodium::stream_header_bytes(
                    *stream_header,
                ),
            ),
{
    let mut to_encrypt: Vec<u8> = Vec::new();
    to_encrypt.extend_from_slice(sodium::stream_key_slice(symmetric_key));
    to_encrypt.extend_from_slice(sodium::stream_header_slice(stream_header));
    let sealed = sodium::seal_box(to_encrypt.as_slice(), public_key);
    let header = header_v1_with(sealed.as_slice(), public_key);
    proof {
        assert(to_encrypt@ =~= sodium::stream_key_bytes(*symmetric_key)
            + sodium::stream_header_bytes(*stream_header));
        assert(header@.take(PREHEADER_LEN as int) =~= wire::preheader(Version::V1));
        assert(header@.subrange(PREHEADER_LEN as int, PREHEADER_LEN + PUBLICKEYBYTES)
            =~= public_key@);
        assert(header@.skip(PREHEADER_LEN + PUBLICKEYBYTES) =~= sealed@);
    }
    header
}

} // verus!
