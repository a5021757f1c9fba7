//! Reading the parts of a stream.
//!
//! Each function looks at the beginning of the bytes that have arrived. Where
//! there are too few of them it says how many more are needed; otherwise it
//! says what it has read, and how many bytes that took.

use sodiumoxide::crypto::secretstream::{Header, Key};
use vstd::prelude::*;
use vstd::slice::slice_subrange;

use crate::error::SaltlickError;
use crate::key::{PublicKey, SecretKey};
use crate::netorder::{self, U32_LEN};
use crate::sodium::{self, PullStream, Tag, ABYTES, HEADERBYTES, KEYBYTES, PUBLICKEYBYTES};
use crate::version::Version;
use crate::wire::{MAGIC, MAGIC_LEN, MESSAGE_LEN_LEN, PREHEADER_LEN, SEALEDTEXT_LEN};

verus! {

/// How far a part of the stream could be read.
pub enum ReadStatus<T> {
    /// This many more bytes are needed.
    Incomplete(usize),
    /// What was read, and the number of bytes that it takes.
    Complete(T, usize),
}

/// What is read of the magic bytes and the version.
pub open spec fn preheader_read(input: Seq<u8>) -> Result<ReadStatus<Version>, SaltlickError> {
    if input.len() < PREHEADER_LEN {
        Ok(ReadStatus::Incomplete((PREHEADER_LEN - input.len()) as usize))
    } else if input.take(MAGIC_LEN as int) != MAGIC@ {
        Err(SaltlickError::BadMagic)
    } else {
        Ok(ReadStatus::Complete(Version::of_byte(input[MAGIC_LEN as int]), PREHEADER_LEN))
    }
}

/// Reads the magic bytes and the version.
pub fn preheader(input: &[u8]) -> (status: Result<ReadStatus<Version>, SaltlickError>)
    ensures
        status == preheader_read(input@),
        status == (if input@.len() < 9 {
            Ok::<ReadStatus<Version>, SaltlickError>(
                ReadStatus::Incomplete((9 - input@.len()) as usize),
            )
        } else if input@.take(8) != seq![0x53u8, 0x41, 0x4c, 0x54, 0x4c, 0x49, 0x43, 0x4b] {
            Err(SaltlickError::BadMagic)
        } else if input@[8] == 1 {
            Ok(ReadStatus::Complete(Version::V1, 9))
        } else {
            Ok(ReadStatus::Complete(Version::Unknown(input@[8]), 9))
        }),
{
    let input_len: usize = input.len();
    assert(MAGIC@ =~= seq![0x53u8, 0x41, 0x4c, 0x54, 0x4c, 0x49, 0x43, 0x4b]);
    if input_len < PREHEADER_LEN {
        return Ok(ReadStatus::Incomplete(PREHEADER_LEN - input_len));
    }
    let mut i: usize = 0;
    while i < MAGIC_LEN
        invariant
            i <= MAGIC_LEN,
            input@.len() >= PREHEADER_LEN,
            forall|j: int| 0 <= j < i ==> input@[j] == MAGIC@[j],
        decreases MAGIC_LEN - i,
    {
        if input[i] != MAGIC[i] {
            assert(input@.take(MAGIC_LEN as int)[i as int] != MAGIC@[i as int]);
            return Err(SaltlickError::BadMagic);
        }
        i = i + 1;
    }
    assert(input@.take(MAGIC_LEN as int) =~= MAGIC@);
    let version = Version::from_u8(input[MAGIC_LEN]);
    Ok(ReadStatus::Complete(version, PREHEADER_LEN))
}

/// Reads the public key that the stream was encrypted for.
pub fn header_v1_public_key(input: &[u8]) -> (status: Result<ReadStatus<PublicKey>, SaltlickError>)
    ensures
        input@.len() < PUBLICKEYBYTES ==> status == Ok::<ReadStatus<PublicKey>, SaltlickError>(
            ReadStatus::Incomplete((PUBLICKEYBYTES - input@.len()) as usize),
        ),
        input@.len() >= PUBLICKEYBYTES ==> {
            &&& status matches Ok(ReadStatus::Complete(public_key, taken))
            &&& public_key@ == input@.take(PUBLICKEYBYTES as int)
            &&& taken == PUBLICKEYBYTES
        },
{
    let input_len: usize = input.len();
    if input_len < PUBLICKEYBYTES {
        return Ok(ReadStatus::Incomplete(PUBLICKEYBYTES - input_len));
    }
    match PublicKey::from_raw_curve25519(slice_subrange(input, 0, PUBLICKEYBYTES)) {
        Ok(public_key) => Ok(ReadStatus::Complete(public_key, PUBLICKEYBYTES)),
        Err(e) => Err(e),
    }
}

/// Reads the stream key and the stream header off what the box of the preamble
/// holds.
pub fn key_and_header(message: &[u8]) -> (pair: Result<(Key, Header), SaltlickError>)
    requires
        message@.len() >= KEYBYTES + HEADERBYTES,
    ensures
        pair is Ok,
        sodium::stream_key_bytes(pair->Ok_0.0) == message@.take(KEYBYTES as int),
        sodium::stream_header_bytes(pair->Ok_0.1) == message@.subrange(
            KEYBYTES as int,
            KEYBYTES + HEADERBYTES,
        ),
{
    let symmetric_key = match sodium::stream_key(slice_subrange(message, 0, KEYBYTES)) {
        Some(key) => key,
        None => return Err(SaltlickError::DecryptionFailure),
    };
    let stream_header = match sodium::stream_header(
        slice_subrange(message, KEYBYTES, KEYBYTES + HEADERBYTES),
    ) {
        Some(header) => header,
        None => return Err(SaltlickError::DecryptionFailure),
    };
    Ok((symmetric_key, stream_header))
}

/// Opens the box of the preamble, and reads the stream key and the stream header
/// in it.
pub fn header_v1_sealed_text(
    input: &[u8],
    public_key: &PublicKey,
    secret_key: &SecretKey,
) -> (status: Result<ReadStatus<(Key, Header)>, SaltlickError>)
    ensures
        input@.len() < SEALEDTEXT_LEN ==> status == Ok::<ReadStatus<(Key, Header)>, SaltlickError>(
            ReadStatus::Incomplete((SEALEDTEXT_LEN - input@.len()) as usize),
        ),
        input@.len() >= SEALEDTEXT_LEN ==> match sodium::box_opened(
            input@.take(SEALEDTEXT_LEN as int),
            public_key@,
            secret_key@,
        ) {
            Some(message) => {
                &&& message.len() == KEYBYTES + HEADERBYTES
                &&& status matches Ok(ReadStatus::Complete((key, header), taken))
                &&& sodium::stream_key_bytes(key) == message.take(KEYBYTES as int)
                &&& sodium::stream_header_bytes(header) == message.skip(KEYBYTES as int)
                &&& taken == SEALEDTEXT_LEN
            },
            None => status == Err::<ReadStatus<(Key, Header)>, SaltlickError>(
                SaltlickError::DecryptionFailure,
            ),
        },
{
    let input_len: usize = input.len();
    if input_len < SEALEDTEXT_LEN {
        return Ok(ReadStatus::Incomplete(SEALEDTEXT_LEN - input_len));
    }
    let sealed_text = slice_subrange(input, 0, SEALEDTEXT_LEN);
    let plaintext = match sodium::open_box(sealed_text, public_key, secret_key) {
        Ok(plaintext) => plaintext,
        Err(()) => return Err(SaltlickError::DecryptionFailure),
    };
    assert(plaintext@.subrange(KEYBYTES as int, KEYBYTES + HEADERBYTES) =~= plaintext@.skip(
        KEYBYTES as int,
    ));
    match key_and_header(plaintext.as_slice()) {
        Ok(pair) => Ok(ReadStatus::Complete(pair, SEALEDTEXT_LEN)),
        Err(e) => Err(e),
    }
}

/// The length that an opened message gives for the next block. Only an ordinary
/// message does: a length is never the end of the stream.
pub open spec fn length_in(message: Option<(Seq<u8>, Tag)>) -> Option<nat> {
    match message {
        Some((bytes, Tag::Message)) => Some(netorder::be32_value(bytes)),
        _ => None,
    }
}

/// A length is read off an ordinary message and no other: it is what the first four
/// bytes stand for, the most significant one first.
pub proof fn law_length_read(message: Option<(Seq<u8>, Tag)>)
    ensures
        length_in(message) is Some <==> message matches Some((_, Tag::Message)),
        message matches Some((m, Tag::Message)) ==> length_in(message) == Some(
            (m[0] * 0x100_0000 + m[1] * 0x1_0000 + m[2] * 0x100 + m[3]) as nat,
        ),
{
}

/// Reads the length of the next block off an opened message.
pub fn length_of(message: &[u8], tag: Tag) -> (length: Result<usize, SaltlickError>)
    requires
        message@.len() >= U32_LEN,
    ensures
        match length_in(Some((message@, tag))) {
            Some(n) => length == Ok::<usize, SaltlickError>(n as usize) && n <= u32::MAX,
            None => length == Err::<usize, SaltlickError>(SaltlickError::DecryptionFailure),
        },
        tag == Tag::Message ==> length == Ok::<usize, SaltlickError>(
            (message@[0] * 0x100_0000 + message@[1] * 0x1_0000 + message@[2] * 0x100
                + message@[3]) as usize,
        ),
        tag != Tag::Message ==> length == Err::<usize, SaltlickError>(
            SaltlickError::DecryptionFailure,
        ),
{
    match tag {
        Tag::Message => Ok(netorder::decode_u32(message) as usize),
        _ => Err(SaltlickError::DecryptionFailure),
    }
}

/// Opens the encrypted length of a block.
pub fn length(input: &[u8], stream: &mut PullStream) -> (status: Result<
    ReadStatus<usize>,
    SaltlickError,
>)
    ensures
        input@.len() < MESSAGE_LEN_LEN ==> {
            &&& status == Ok::<ReadStatus<usize>, SaltlickError>(
                ReadStatus::Incomplete((MESSAGE_LEN_LEN - input@.len()) as usize),
            )
            &&& *final(stream) == *old(stream)
        },
        input@.len() >= MESSAGE_LEN_LEN && sodium::pull_finalized(*old(stream)) ==> {
            &&& status == Err::<ReadStatus<usize>, SaltlickError>(SaltlickError::DecryptionFailure)
            &&& *final(stream) == *old(stream)
        },
        input@.len() >= MESSAGE_LEN_LEN && !sodium::pull_finalized(*old(stream)) ==> {
            let (message, state) = sodium::message_opened(
                sodium::pull_state(*old(stream)),
                input@.take(MESSAGE_LEN_LEN as int),
            );
            &&& sodium::pull_state(*final(stream)) == state
            &&& sodium::pull_finalized(*final(stream)) == (message matches Some((m, Tag::Final)))
            &&& match length_in(message) {
                Some(n) => {
                    &&& n <= u32::MAX
                    &&& status == Ok::<ReadStatus<usize>, SaltlickError>(
                        ReadStatus::Complete(n as usize, MESSAGE_LEN_LEN),
                    )
                },
                None => status == Err::<ReadStatus<usize>, SaltlickError>(
                    SaltlickError::DecryptionFailure,
                ),
            }
        },
        input@.len() >= 21 && !sodium::pull_finalized(*old(stream)) ==> status == (
        match sodium::message_opened(sodium::pull_state(*old(stream)), input@.take(21)).0 {
            Some((m, Tag::Message)) => Ok::<ReadStatus<usize>, SaltlickError>(
                ReadStatus::Complete(
                    (m[0] * 0x100_0000 + m[1] * 0x1_0000 + m[2] * 0x100 + m[3]) as usize,
                    21,
                ),
            ),
            _ => Err(SaltlickError::DecryptionFailure),
        }),
{
    let input_len: usize = input.len();
    if input_len < MESSAGE_LEN_LEN {
        return Ok(ReadStatus::Incomplete(MESSAGE_LEN_LEN - input_len));
    }
    let (plaintext, tag) = match sodium::pull_message(
        stream,
        slice_subrange(input, 0, MESSAGE_LEN_LEN),
    ) {
        Ok(opened) => opened,
        Err(()) => return Err(SaltlickError::DecryptionFailure),
    };
    match length_of(plaintext.as_slice(), tag) {
        Ok(length) => Ok(ReadStatus::Complete(length, MESSAGE_LEN_LEN)),
        Err(e) => Err(e),
    }
}

/// The block that an opened message holds, and whether it is the last one. Only
/// the last block may be empty.
pub open spec fn block_in(message: Option<(Seq<u8>, Tag)>, message_length: nat) -> Option<
    (Seq<u8>, bool),
> {
    match message {
        Some((bytes, Tag::Message)) => if message_length == 0 {
            None
        } else {
            Some((bytes, false))
        },
        Some((bytes, Tag::Final)) => Some((bytes, true)),
        _ => None,
    }
}

/// A block is what its message opens to, as it is. An ordinary message that is not
/// empty holds a block, the last message holds the last one, and nothing else holds
/// any.
pub proof fn law_block_read(message: Option<(Seq<u8>, Tag)>, message_length: nat)
    ensures
        match message {
            Some((m, Tag::Message)) => message_length > 0 ==> block_in(message, message_length)
                == Some((m, false)),
            Some((m, Tag::Final)) => block_in(message, message_length) == Some((m, true)),
            _ => block_in(message, message_length) is None,
        },
        message matches Some((m, Tag::Message)) && message_length == 0 ==> block_in(
            message,
            message_length,
        ) is None,
{
}

/// Reads a block off an opened message.
pub fn block_of(message: Vec<u8>, tag: Tag, message_length: usize) -> (block: Result<
    (Vec<u8>, bool),
    SaltlickError,
>)
    ensures
        match block_in(Some((message@, tag)), message_length as nat) {
            Some((bytes, last)) => {
                &&& block matches Ok((b, l))
                &&& b@ == bytes
                &&& l == last
            },
            None => block == Err::<(Vec<u8>, bool), SaltlickError>(
                SaltlickError::DecryptionFailure,
            ),
        },
        block is Ok <==> tag == Tag::Final || (tag == Tag::Message && message_length > 0),
        block is Ok ==> block->Ok_0.0@ == message@ && block->Ok_0.1 == (tag == Tag::Final),
        block is Err ==> block->Err_0 == SaltlickError::DecryptionFailure,
{
    match tag {
        Tag::Message => {
            if message_length == 0 {
                Err(SaltlickError::DecryptionFailure)
            } else {
                Ok((message, false))
            }
        },
        Tag::Final => Ok((message, true)),
        Tag::Push | Tag::Rekey => Err(SaltlickError::DecryptionFailure),
    }
}

/// Whether the encrypted form of a block of this length has a length that fits
/// the machine.
pub open spec fn block_fits(message_length: nat) -> bool {
    message_length + ABYTES <= usize::MAX
}

/// Opens an encrypted block of the given length.
pub fn block(input: &[u8], stream: &mut PullStream, message_length: usize) -> (status: Result<
    ReadStatus<(Vec<u8>, bool)>,
    SaltlickError,
>)
    requires
        block_fits(message_length as nat),
    ensures
        input@.len() < message_length + ABYTES ==> {
            &&& status == Ok::<ReadStatus<(Vec<u8>, bool)>, SaltlickError>(
                ReadStatus::Incomplete((message_length + ABYTES - input@.len()) as usize),
            )
            &&& *final(stream) == *old(stream)
        },
        input@.len() >= message_length + ABYTES && sodium::pull_finalized(*old(stream)) ==> {
            &&& status == Err::<ReadStatus<(Vec<u8>, bool)>, SaltlickError>(
                SaltlickError::DecryptionFailure,
            )
            &&& *final(stream) == *old(stream)
        },
        input@.len() >= message_length + ABYTES && !sodium::pull_finalized(*old(stream)) ==> {
            let (message, state) = sodium::message_opened(
                sodium::pull_state(*old(stream)),
                input@.take(message_length + ABYTES),
            );
            &&& sodium::pull_state(*final(stream)) == state
            &&& sodium::pull_finalized(*final(stream)) == (message matches Some((m, Tag::Final)))
            &&& match block_in(message, message_length as nat) {
                Some((bytes, last)) => {
                    &&& bytes.len() == message_length
                    &&& status matches Ok(ReadStatus::Complete((b, l), taken))
                    &&& b@ == bytes
                    &&& l == last
                    &&& taken == message_length + ABYTES
                },
                None => status == Err::<ReadStatus<(Vec<u8>, bool)>, SaltlickError>(
                    SaltlickError::DecryptionFailure,
                ),
            }
        },
        input@.len() >= message_length + 17 && !sodium::pull_finalized(*old(stream)) ==> {
            let message = sodium::message_opened(
                sodium::pull_state(*old(stream)),
                input@.take(message_length + 17),
            ).0;
            match message {
                Some((m, tag)) if tag == Tag::Final || (tag == Tag::Message && message_length
                    > 0) => {
                    &&& status matches Ok(ReadStatus::Complete((block, last), taken))
                    &&& block@ == m
                    &&& last == (tag == Tag::Final)
                    &&& taken == message_length + 17
                },
                _ => status == Err::<ReadStatus<(Vec<u8>, bool)>, SaltlickError>(
                    SaltlickError::DecryptionFailure,
                ),
            }
        },
{
    let input_len: usize = input.len();
    let block_len: usize = message_length + ABYTES;
    if input_len < block_len {
        return Ok(ReadStatus::Incomplete(block_len - input_len));
    }
    let (plaintext, tag) = match sodium::pull_message(stream, slice_subrange(input, 0, block_len)) {
        Ok(opened) => opened,
        Err(()) => return Err(SaltlickError::DecryptionFailure),
    };
    match block_of(plaintext, tag, message_length) {
        Ok(block) => Ok(ReadStatus::Complete(block, block_len)),
        Err(e) => Err(e),
    }
}

} // verus!
