//! What the library takes from sodiumoxide: streams of encrypted messages,
//! sealed boxes, and the keys of both.
//!
//! The contracts in this file are not proved. They say what the source of
//! sodiumoxide, and of the libsodium that it builds, shows.

use sodiumoxide::crypto::box_::{self, PublicKey as BoxPublicKey, SecretKey as BoxSecretKey};
use sodiumoxide::crypto::sealedbox;
use sodiumoxide::crypto::secretstream::{self, Header, Key, Pull, Push, Stream};
use vstd::prelude::*;

use crate::key::{PublicKey, SecretKey};

verus! {

/// Number of bytes of a public key.
pub const PUBLICKEYBYTES: usize = 32;

/// Number of bytes of a secret key.
pub const SECRETKEYBYTES: usize = 32;

/// Number of bytes by which a sealed box is longer than what it holds.
pub const SEALBYTES: usize = 48;

/// Number of bytes of the key of a message stream.
pub const KEYBYTES: usize = 32;

/// Number of bytes of the header of a message stream.
pub const HEADERBYTES: usize = 24;

/// Number of bytes by which an encrypted message is longer than the message.
pub const ABYTES: usize = 17;

/// The mark that goes with each message of a stream.
#[derive(Clone, Copy, Debug, PartialEq, Eq, Structural)]
pub enum Tag {
    /// An ordinary message.
    Message,
    /// The end of a set of messages.
    Push,
    /// A message after which the key changes.
    Rekey,
    /// The last message of the stream.
    Final,
}

// ---------------------------------------------------------------------------
// Keys and headers
// ---------------------------------------------------------------------------

/// `box_::PublicKey`, which is an array of bytes.
#[verifier::external_type_specification]
#[verifier::external_body]
pub struct ExBoxPublicKey(BoxPublicKey);

/// The bytes of a `box_::PublicKey`.
pub uninterp spec fn box_public_key_bytes(key: BoxPublicKey) -> Seq<u8>;

/// `box_::SecretKey`, an array of bytes that is overwritten when it is dropped.
#[verifier::external_type_specification]
#[verifier::external_body]
pub struct ExBoxSecretKey(BoxSecretKey);

/// The bytes of a `box_::SecretKey`.
pub uninterp spec fn box_secret_key_bytes(key: BoxSecretKey) -> Seq<u8>;

/// The public key that belongs to a secret key.
pub uninterp spec fn public_key_of(secret_key: Seq<u8>) -> Seq<u8>;

/// `secretstream::Key`, an array of bytes that is overwritten when it is dropped.
#[verifier::external_type_specification]
#[verifier::external_body]
pub struct ExStreamKey(Key);

/// The bytes of a `secretstream::Key`.
pub uninterp spec fn stream_key_bytes(key: Key) -> Seq<u8>;

/// `secretstream::Header`, which is an array of bytes.
#[verifier::external_type_specification]
#[verifier::external_body]
pub struct ExStreamHeader(Header);

/// The bytes of a `secretstream::Header`.
pub uninterp spec fn stream_header_bytes(header: Header) -> Seq<u8>;

/// `box_::gen_keypair`: a secret key drawn at random and the public key that
/// belongs to it.
#[verifier::external_body]
pub(crate) fn box_keypair() -> (pair: (BoxPublicKey, BoxSecretKey))
    ensures
        box_public_key_bytes(pair.0).len() == PUBLICKEYBYTES,
        box_secret_key_bytes(pair.1).len() == SECRETKEYBYTES,
        box_public_key_bytes(pair.0) == public_key_of(box_secret_key_bytes(pair.1)),
{
    box_::gen_keypair()
}

/// `box_::PublicKey::from_slice`: the key with the given bytes, if there are as
/// many of them as a key has.
#[verifier::external_body]
pub(crate) fn box_public_key(bytes: &[u8]) -> (key: Option<BoxPublicKey>)
    ensures
        key is Some <==> bytes@.len() == PUBLICKEYBYTES,
        key matches Some(k) ==> box_public_key_bytes(k) == bytes@,
{
    BoxPublicKey::from_slice(bytes)
}

/// `box_::PublicKey::as_ref`: the bytes of the key.
#[verifier::external_body]
pub(crate) fn box_public_key_slice(key: &BoxPublicKey) -> (bytes: &[u8])
    ensures
        bytes@ == box_public_key_bytes(*key),
        bytes@.len() == PUBLICKEYBYTES,
{
    key.as_ref()
}

/// `box_::SecretKey::from_slice`: the key with the given bytes, if there are as
/// many of them as a key has.
#[verifier::external_body]
pub(crate) fn box_secret_key(bytes: &[u8]) -> (key: Option<BoxSecretKey>)
    ensures
        key is Some <==> bytes@.len() == SECRETKEYBYTES,
        key matches Some(k) ==> box_secret_key_bytes(k) == bytes@,
{
    BoxSecretKey::from_slice(bytes)
}

/// `secretstream::gen_key`: a key drawn at random. Nothing is said of its bytes
/// but their number.
#[verifier::external_body]
pub(crate) fn gen_stream_key() -> (key: Key)
    ensures
        stream_key_bytes(key).len() == KEYBYTES,
{
    secretstream::gen_key()
}

/// `secretstream::Key::from_slice`: the key with the given bytes, if there are
/// as many of them as a key has.
#[verifier::external_body]
pub(crate) fn stream_key(bytes: &[u8]) -> (key: Option<Key>)
    ensures
        key is Some <==> bytes@.len() == KEYBYTES,
        key matches Some(k) ==> stream_key_bytes(k) == bytes@,
{
    Key::from_slice(bytes)
}

/// `secretstream::Key::as_ref`: the bytes of the key.
#[verifier::external_body]
pub(crate) fn stream_key_slice(key: &Key) -> (bytes: &[u8])
    ensures
        bytes@ == stream_key_bytes(*key),
        bytes@.len() == KEYBYTES,
{
    key.as_ref()
}

/// `secretstream::Header::from_slice`: the header with the given bytes, if there
/// are as many of them as a header has.
#[verifier::external_body]
pub(crate) fn stream_header(bytes: &[u8]) -> (header: Option<Header>)
    ensures
        header is Some <==> bytes@.len() == HEADERBYTES,
        header matches Some(h) ==> stream_header_bytes(h) == bytes@,
{
    Header::from_slice(bytes)
}

/// `secretstream::Header::as_ref`: the bytes of the header.
#[verifier::external_body]
pub(crate) fn stream_header_slice(header: &Header) -> (bytes: &[u8])
    ensures
        bytes@ == stream_header_bytes(*header),
        bytes@.len() == HEADERBYTES,
{
    header.as_ref()
}

/// `sodiumoxide::utils::memcmp`: whether two byte strings are the same, in a
/// time that does not depend on their bytes.
#[verifier::external_body]
pub(crate) fn same_bytes(left: &[u8], right: &[u8]) -> (same: bool)
    ensures
        same == (left@ == right@),
{
    sodiumoxide::utils::memcmp(left, right)
}

// ---------------------------------------------------------------------------
// Sealed boxes
// ---------------------------------------------------------------------------

/// What `sealedbox::open` makes of a sealed box with a key pair: the message in
/// it, or nothing where the box does not open.
pub uninterp spec fn box_opened(
    sealed: Seq<u8>,
    public_key: Seq<u8>,
    secret_key: Seq<u8>,
) -> Option<Seq<u8>>;

/// Whether `sealed` is a sealed box that holds `message` for the owner of
/// `public_key`: every secret key that the public key belongs to opens it.
pub open spec fn box_holds(sealed: Seq<u8>, public_key: Seq<u8>, message: Seq<u8>) -> bool {
    &&& sealed.len() == message.len() + SEALBYTES
    &&& forall|secret_key: Seq<u8>|
        secret_key.len() == SECRETKEYBYTES && #[trigger] public_key_of(secret_key) == public_key
            ==> box_opened(sealed, public_key, secret_key) == Some(message)
}

/// `sealedbox::seal`: a box that holds the message for the owner of the public
/// key. It is sealed with a key pair drawn at random, so nothing more is said of
/// its bytes.
#[verifier::external_body]
pub(crate) fn seal_box(message: &[u8], public_key: &PublicKey) -> (sealed: Vec<u8>)
    requires
        message@.len() == KEYBYTES + HEADERBYTES,
    ensures
        box_holds(sealed@, public_key@, message@),
{
    sealedbox::seal(message, &public_key.inner)
}

/// `sealedbox::open`: the message that the box holds, which is shorter than the
/// box by `SEALBYTES`, or nothing where the box does not open with these keys.
#[verifier::external_body]
pub(crate) fn open_box(sealed: &[u8], public_key: &PublicKey, secret_key: &SecretKey) -> (message:
    Result<Vec<u8>, ()>)
    ensures
        message is Ok <==> box_opened(sealed@, public_key@, secret_key@) is Some,
        message matches Ok(m) ==> {
            &&& box_opened(sealed@, public_key@, secret_key@) == Some(m@)
            &&& m@.len() + SEALBYTES == sealed@.len()
        },
{
    sealedbox::open(sealed, &public_key.inner, &secret_key.inner)
}

// ---------------------------------------------------------------------------
// Streams of encrypted messages
// ---------------------------------------------------------------------------

/// The largest number of bytes that a message of a stream can have.
pub open spec fn message_limit() -> int {
    if usize::MAX - ABYTES < 64 * (0x1_0000_0000 - 2) {
        usize::MAX - ABYTES
    } else {
        64 * (0x1_0000_0000 - 2)
    }
}

/// The state that `Stream::init_pull` puts a stream in: the state in which the
/// first message is sealed and opened.
pub uninterp spec fn initial_state(header: Seq<u8>, key: Seq<u8>) -> Seq<u8>;

/// The encrypted message, and the state after it, that `Stream::push` makes of a
/// message and its tag in a given state, with no additional data.
pub uninterp spec fn message_sealed(state: Seq<u8>, message: Seq<u8>, tag: Tag) -> (
    Seq<u8>,
    Seq<u8>,
);

/// What `Stream::pull` makes of an encrypted message in a given state of a
/// stream that is not finalized, with no additional data: the message and its
/// tag, or nothing where it does not open; and the state after it.
pub uninterp spec fn message_opened(state: Seq<u8>, sealed: Seq<u8>) -> (
    Option<(Seq<u8>, Tag)>,
    Seq<u8>,
);

/// A `Stream<Push>`: a stream that messages are sealed into.
#[verifier::external_body]
pub struct PushStream {
    inner: Stream<Push>,
}

/// The state of a `Stream<Push>`.
pub uninterp spec fn push_state(stream: PushStream) -> Seq<u8>;

/// Whether a `Stream<Push>` has sealed its last message.
pub uninterp spec fn push_finalized(stream: PushStream) -> bool;

/// A `Stream<Pull>`: a stream that messages are opened from.
#[verifier::external_body]
pub struct PullStream {
    inner: Stream<Pull>,
}

/// The state of a `Stream<Pull>`.
pub uninterp spec fn pull_state(stream: PullStream) -> Seq<u8>;

/// Whether a `Stream<Pull>` has opened its last message.
pub uninterp spec fn pull_finalized(stream: PullStream) -> bool;

/// Whether sealing `message` with `tag` in `state` gives `sealed`, which opens
/// in the same state, to the same message and tag, and leaves the same state
/// behind.
pub open spec fn seals(state: Seq<u8>, message: Seq<u8>, tag: Tag, sealed: Seq<u8>) -> bool {
    &&& sealed == message_sealed(state, message, tag).0
    &&& sealed.len() == message.len() + ABYTES
    &&& message_opened(state, sealed) == (
        Some((message, tag)),
        message_sealed(state, message, tag).1,
    )
}

/// `Stream::init_push`: a new stream under the key, and the header that names
/// it. The header is drawn at random; the state is the one that the header and
/// the key give to a stream that is to be opened. It does not fail.
#[verifier::external_body]
pub(crate) fn open_push(key: &Key) -> (started: Result<(PushStream, Header), ()>)
    ensures
        started is Ok,
        stream_header_bytes(started->Ok_0.1).len() == HEADERBYTES,
        push_state(started->Ok_0.0) == initial_state(
            stream_header_bytes(started->Ok_0.1),
            stream_key_bytes(*key),
        ),
        !push_finalized(started->Ok_0.0),
{
    let (inner, header) = Stream::init_push(key)?;
    Ok((PushStream { inner }, header))
}

/// `Stream::push`, with no additional data: the message is sealed, and the
/// stream moves on to its next state. The stream is finalized by a message with
/// the tag `Final`. It fails, and changes nothing, where the stream is finalized
/// or the message is too long. It panics where the encrypted message would not
/// fit in a vector.
#[verifier::external_body]
pub(crate) fn push_message(stream: &mut PushStream, message: &[u8], tag: Tag) -> (sealed: Result<
    Vec<u8>,
    (),
>)
    requires
        message@.len() + ABYTES <= isize::MAX,
    ensures
        sealed is Ok <==> (!push_finalized(*old(stream)) && message@.len() <= message_limit()),
        sealed is Err ==> *final(stream) == *old(stream),
        sealed is Ok ==> seals(push_state(*old(stream)), message@, tag, sealed->Ok_0@),
        sealed is Ok ==> push_state(*final(stream)) == message_sealed(
            push_state(*old(stream)),
            message@,
            tag,
        ).1,
        sealed is Ok ==> push_finalized(*final(stream)) == (tag == Tag::Final),
{
    let tag = match tag {
        Tag::Message => secretstream::Tag::Message,
        Tag::Push => secretstream::Tag::Push,
        Tag::Rekey => secretstream::Tag::Rekey,
        Tag::Final => secretstream::Tag::Final,
    };
    stream.inner.push(message, None, tag)
}

/// `Stream::init_pull`: a new stream in the state that the header and the key
/// give. It does not fail.
#[verifier::external_body]
pub(crate) fn open_pull(header: &Header, key: &Key) -> (started: Result<PullStream, ()>)
    ensures
        started is Ok,
        pull_state(started->Ok_0) == initial_state(
            stream_header_bytes(*header),
            stream_key_bytes(*key),
        ),
        !pull_finalized(started->Ok_0),
{
    let inner = Stream::init_pull(header, key)?;
    Ok(PullStream { inner })
}

/// `Stream::pull`, with no additional data: the message and its tag, where the
/// encrypted message opens in the state of the stream, which moves on. The
/// stream is finalized by a message with the tag `Final`. A finalized stream
/// opens nothing and does not change. A message is shorter than its encrypted
/// form by `ABYTES`.
#[verifier::external_body]
pub(crate) fn pull_message(stream: &mut PullStream, sealed: &[u8]) -> (opened: Result<
    (Vec<u8>, Tag),
    (),
>)
    ensures
        pull_finalized(*old(stream)) ==> opened is Err && *final(stream) == *old(stream),
        !pull_finalized(*old(stream)) ==> {
            let (message, state) = message_opened(pull_state(*old(stream)), sealed@);
            &&& opened is Ok <==> message is Some
            &&& opened matches Ok((m, tag)) ==> message == Some((m@, tag)) && m@.len() + ABYTES
                == sealed@.len()
            &&& pull_state(*final(stream)) == state
            &&& pull_finalized(*final(stream)) == (opened matches Ok((m, tag)) && tag
                == Tag::Final)
        },
{
    let (message, tag) = stream.inner.pull(sealed, None)?;
    match tag {
        secretstream::Tag::Message => Ok((message, Tag::Message)),
        secretstream::Tag::Push => Ok((message, Tag::Push)),
        secretstream::Tag::Rekey => Ok((message, Tag::Rekey)),
        secretstream::Tag::Final => Ok((message, Tag::Final)),
    }
}

} // verus!
