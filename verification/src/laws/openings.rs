//! What is in the bytes of a stream, said of the bytes alone.
//!
//! The laws in this file speak of what was pushed and pulled, of the bytes that
//! went out and came in, and of what sodiumoxide makes of those bytes when it
//! opens them. They use no definition of the format: every offset, length and tag
//! is written out. So they hold for whoever reads or writes the same bytes with
//! sodiumoxide alone.

use vstd::prelude::*;

use crate::crypter::decrypter::{self, DecrypterPhase, DecrypterView, KeySource, Progress};
use crate::crypter::encrypter::{self, EncrypterPhase, EncrypterView};
use crate::error::SaltlickError;
use crate::laws::{self, PullCall, PushCall};
use crate::sodium::{self, Tag};
use crate::version::Version;
use crate::wire::{self, Block, MAGIC};

verus! {

/// The bytes of some blocks.
spec fn data_of(blocks: Seq<Block>) -> Seq<Seq<u8>> {
    blocks.map_values(|block: Block| block.data)
}

/// The bytes of all blocks are those of the blocks, one after the other.
proof fn lemma_plain_flatten(blocks: Seq<Block>)
    ensures
        data_of(blocks).flatten() == wire::plain(blocks),
    decreases blocks.len(),
{
    if blocks.len() > 0 {
        lemma_plain_flatten(blocks.skip(1));
        assert(data_of(blocks).drop_first() =~= data_of(blocks.skip(1)));
    }
}

/// Whether the frame of a block stands at `start`: two messages that open, one
/// after the other, from `state` to `next`.
spec fn frame_stands(
    bytes: Seq<u8>,
    start: int,
    state: Seq<u8>,
    next: Seq<u8>,
    block: Seq<u8>,
    tag: Tag,
) -> bool {
    let (length_message, between) = sodium::message_opened(
        state,
        bytes.subrange(start, start + 21),
    );
    &&& 0 <= start
    &&& start + 38 + block.len() <= bytes.len()
    &&& length_message == Some(
        (
            seq![
                (block.len() / 0x100_0000) as u8,
                (block.len() / 0x1_0000 % 0x100) as u8,
                (block.len() / 0x100 % 0x100) as u8,
                (block.len() % 0x100) as u8,
            ],
            Tag::Message,
        ),
    )
    &&& sodium::message_opened(
        between,
        bytes.subrange(start + 21, start + 21 + block.len() + 17),
    ) == (Some((block, tag)), next)
}

/// Where the frames of some blocks begin in the bytes that they stand in, and the
/// states in which they open.
proof fn lemma_frames_open(lead: Seq<u8>, state: Seq<u8>, blocks: Seq<Block>) -> (walk: (
    Seq<Seq<u8>>,
    Seq<int>,
))
    requires
        wire::frames_open(state, blocks),
    ensures
        ({
            let (states, at) = walk;
            let n = blocks.len() as int;
            let bytes = lead + wire::frames(state, blocks);
            &&& states.len() == n + 1
            &&& at.len() == n + 1
            &&& at[0] == lead.len()
            &&& at[n] == bytes.len()
            &&& states[0] == state
            &&& states[n] == wire::frames_state(state, blocks)
            &&& forall|i: int|
                #![trigger blocks[i]]
                0 <= i < n ==> at[i + 1] == at[i] + 38 + blocks[i].data.len()
            &&& forall|i: int|
                #![trigger blocks[i]]
                0 <= i < n ==> frame_stands(
                    bytes,
                    at[i],
                    states[i],
                    states[i + 1],
                    blocks[i].data,
                    if blocks[i].last {
                        Tag::Final
                    } else {
                        Tag::Message
                    },
                )
        }),
    decreases blocks.len(),
{
    let n = blocks.len() as int;
    let bytes = lead + wire::frames(state, blocks);
    if n == 0 {
        assert(bytes =~= lead);
        (seq![state], seq![lead.len() as int])
    } else {
        let block = blocks[0];
        let rest = blocks.skip(1);
        let frame = wire::frame(state, block);
        let next = wire::frame_state(state, block);
        let length = block.data.len();
        let (later_states, later_at) = lemma_frames_open(lead + frame, next, rest);
        let states = seq![state] + later_states;
        let at = seq![lead.len() as int] + later_at;
        assert((lead + frame) + wire::frames(next, rest) =~= bytes);
        let start = lead.len() as int;
        assert(bytes.subrange(start, start + 21) =~= wire::length_sealed(state, block).0);
        assert(bytes.subrange(start + 21, start + 21 + length + 17) =~= wire::block_sealed(
            state,
            block,
        ).0);
        assert(frame_stands(bytes, start, state, next, block.data, block.tag()));
        assert forall|i: int| #![trigger blocks[i]] 0 <= i < n implies at[i + 1] == at[i] + 38
            + blocks[i].data.len() && frame_stands(
            bytes,
            at[i],
            states[i],
            states[i + 1],
            blocks[i].data,
            if blocks[i].last {
                Tag::Final
            } else {
                Tag::Message
            },
        ) by {
            if i > 0 {
                assert(blocks[i] == rest[i - 1]);
                assert(states[i] == later_states[i - 1] && at[i] == later_at[i - 1]);
            }
            assert(states[i + 1] == later_states[i] && at[i + 1] == later_at[i]);
        }
        assert(at[n] == later_at[n - 1]);
        assert(states[n] == later_states[n - 1]);
        (states, at)
    }
}

/// The sizes of the blocks that plaintext is cut into.
proof fn lemma_cut_sizes(data: Seq<u8>, block_size: nat, finalize: bool)
    requires
        0 < block_size,
    ensures
        ({
            let blocks = wire::cut(data, block_size, finalize);
            forall|i: int| 0 <= i < blocks.len() ==> if (#[trigger] blocks[i]).last {
                blocks[i].data.len() < block_size
            } else {
                blocks[i].data.len() == block_size
            }
        }),
    decreases data.len(),
{
    if block_size <= data.len() {
        let blocks = wire::cut(data, block_size, finalize);
        let left = data.skip(block_size as int);
        let rest = wire::cut(left, block_size, finalize);
        lemma_cut_sizes(left, block_size, finalize);
        assert forall|i: int| 0 <= i < blocks.len() implies if (#[trigger] blocks[i]).last {
            blocks[i].data.len() < block_size
        } else {
            blocks[i].data.len() == block_size
        } by {
            if i > 0 {
                assert(blocks[i] == rest[i - 1]);
            }
        }
    }
}

/// What a preamble holds, in its bytes.
proof fn lemma_preamble_bytes(preamble: Seq<u8>, more: Seq<u8>, public_key: Seq<u8>, state: Seq<u8>)
    requires
        encrypter::is_started(preamble, public_key, state),
    ensures
        ({
            let bytes = preamble + more;
            &&& preamble.len() == 145
            &&& bytes.take(8) == seq![0x53u8, 0x41, 0x4c, 0x54, 0x4c, 0x49, 0x43, 0x4b]
            &&& bytes[8] == 1
            &&& bytes.subrange(9, 41) == public_key
            &&& forall|secret_key: Seq<u8>|
                secret_key.len() == 32 && #[trigger] sodium::public_key_of(secret_key)
                    == public_key ==> {
                    &&& sodium::box_opened(
                        bytes.subrange(41, 145),
                        public_key,
                        secret_key,
                    ) matches Some(message)
                    &&& message.len() == 56
                    &&& state == sodium::initial_state(message.skip(32), message.take(32))
                }
        }),
{
    let (key, header) = choose|key: Seq<u8>, header: Seq<u8>|
        {
            &&& #[trigger] wire::is_preamble(preamble, public_key, key, header)
            &&& state == sodium::initial_state(header, key)
        };
    let bytes = preamble + more;
    let preheader = wire::preheader(Version::V1);
    assert(bytes.take(9) =~= preamble.take(9));
    assert(bytes.take(8) =~= preheader.take(8));
    assert(preheader.take(8) =~= MAGIC@);
    assert(MAGIC@ =~= seq![0x53u8, 0x41, 0x4c, 0x54, 0x4c, 0x49, 0x43, 0x4b]);
    assert(bytes[8] == bytes.take(9)[8]);
    assert(bytes.subrange(9, 41) =~= preamble.subrange(9, 41));
    assert(bytes.subrange(41, 145) =~= preamble.skip(41));
    assert((key + header).take(32) =~= key);
    assert((key + header).skip(32) =~= header);
}

/// What a push writes, by what is found in its bytes.
///
/// The blocks that it writes are cut of what was pending and what was pushed, in
/// order; what is left is pending. All of them have the block size but the one that
/// ends the stream, which is smaller. They stand one behind the other, each as two
/// messages that open in the state that the message before has left: the first to
/// the length of the block in four bytes, the most significant one first, with the
/// tag of an ordinary message; the second to the block, with the tag of the last
/// message where the block ends the stream and that of an ordinary one elsewhere.
///
/// The first push writes 145 bytes before them: eight magic bytes, the version one,
/// the public key, and a box that opens, with every secret key of that public key,
/// to the key and the header from which the state of the first message comes.
pub proof fn law_push_opens(
    before: EncrypterView,
    plaintext: Seq<u8>,
    finalize: bool,
    result: Result<Seq<u8>, SaltlickError>,
    after: EncrypterView,
) -> (walk: (Seq<Seq<u8>>, Seq<int>, Seq<Seq<u8>>))
    requires
        1024 <= before.block_size <= 8388608,
        !(before.phase is Finalized),
        encrypter::pushed(before, plaintext, finalize, result, after),
    ensures
        result is Ok,
        ({
            let (states, at, blocks) = walk;
            let n = blocks.len() as int;
            let bytes = result->Ok_0;
            &&& states.len() == n + 1
            &&& at.len() == n + 1
            &&& at[n] == bytes.len()
            &&& before.phase matches EncrypterPhase::Streaming { state } ==> at[0] == 0 && states[0]
                == state
            &&& before.phase is Start ==> {
                &&& at[0] == 145
                &&& bytes.take(8) == seq![0x53u8, 0x41, 0x4c, 0x54, 0x4c, 0x49, 0x43, 0x4b]
                &&& bytes[8] == 1
                &&& bytes.subrange(9, 41) == before.public_key
                &&& forall|secret_key: Seq<u8>|
                    secret_key.len() == 32 && #[trigger] sodium::public_key_of(secret_key)
                        == before.public_key ==> {
                        &&& sodium::box_opened(
                            bytes.subrange(41, 145),
                            before.public_key,
                            secret_key,
                        ) matches Some(message)
                        &&& message.len() == 56
                        &&& states[0] == sodium::initial_state(message.skip(32), message.take(32))
                    }
            }
            &&& forall|i: int|
                #![trigger blocks[i]]
                0 <= i < n ==> {
                    let block = blocks[i];
                    let ends = finalize && i == n - 1;
                    let (length_message, between) = sodium::message_opened(
                        states[i],
                        bytes.subrange(at[i], at[i] + 21),
                    );
                    &&& length_message == Some(
                        (
                            seq![
                                (block.len() / 0x100_0000) as u8,
                                (block.len() / 0x1_0000 % 0x100) as u8,
                                (block.len() / 0x100 % 0x100) as u8,
                                (block.len() % 0x100) as u8,
                            ],
                            Tag::Message,
                        ),
                    )
                    &&& sodium::message_opened(
                        between,
                        bytes.subrange(at[i] + 21, at[i] + 21 + block.len() + 17),
                    ) == (
                        Some(
                            (
                                block,
                                if ends {
                                    Tag::Final
                                } else {
                                    Tag::Message
                                },
                            ),
                        ),
                        states[i + 1],
                    )
                    &&& at[i + 1] == at[i] + 21 + block.len() + 17
                    &&& ends ==> block.len() < before.block_size
                    &&& !ends ==> block.len() == before.block_size
                }
            &&& finalize ==> n > 0
            &&& blocks.flatten() + after.pending == before.pending + plaintext
            &&& after.pending.len() < before.block_size
            &&& finalize ==> after.pending.len() == 0
            &&& after.phase == if finalize {
                EncrypterPhase::Finalized
            } else {
                EncrypterPhase::Streaming { state: states[n] }
            }
        }),
        after.block_size == before.block_size,
        after.public_key == before.public_key,
{
    let data = before.pending + plaintext;
    let (lead, state): (Seq<u8>, Seq<u8>) = match before.phase {
        EncrypterPhase::Streaming { state } => (Seq::empty(), state),
        _ => choose|preamble: Seq<u8>, state: Seq<u8>|
            {
                &&& #[trigger] encrypter::is_started(preamble, before.public_key, state)
                &&& encrypter::streamed(before, preamble, state, data, finalize, result, after)
            },
    };
    let cut = wire::cut(data, before.block_size, finalize);
    let blocks = data_of(cut);
    laws::law_cut(data, before.block_size, finalize);
    lemma_cut_sizes(data, before.block_size, finalize);
    lemma_plain_flatten(cut);
    let (states, at) = lemma_frames_open(lead, state, cut);
    if before.phase is Start {
        lemma_preamble_bytes(lead, wire::frames(state, cut), before.public_key, state);
    }
    let bytes = result->Ok_0;
    let n = blocks.len() as int;
    assert forall|i: int| #![trigger blocks[i]] 0 <= i < n implies {
        let block = blocks[i];
        let ends = finalize && i == n - 1;
        let (length_message, between) = sodium::message_opened(
            states[i],
            bytes.subrange(at[i], at[i] + 21),
        );
        &&& length_message == Some(
            (
                seq![
                    (block.len() / 0x100_0000) as u8,
                    (block.len() / 0x1_0000 % 0x100) as u8,
                    (block.len() / 0x100 % 0x100) as u8,
                    (block.len() % 0x100) as u8,
                ],
                Tag::Message,
            ),
        )
        &&& sodium::message_opened(
            between,
            bytes.subrange(at[i] + 21, at[i] + 21 + block.len() + 17),
        ) == (
            Some(
                (
                    block,
                    if ends {
                        Tag::Final
                    } else {
                        Tag::Message
                    },
                ),
            ),
            states[i + 1],
        )
        &&& at[i + 1] == at[i] + 21 + block.len() + 17
        &&& ends ==> block.len() < before.block_size
        &&& !ends ==> block.len() == before.block_size
    } by {
        assert(blocks[i] == cut[i].data);
    }
    (states, at, blocks)
}

/// What is found in a whole stream, whatever pieces it was pushed in: what the
/// first push writes before the frames, and then frames that open, one after the
/// other, to all that was pushed but what is pending. Exactly one block, the last
/// one of a finalized stream, has the tag of the last message; no other is empty.
pub proof fn law_stream_opens(
    public_key: Seq<u8>,
    calls: Seq<PushCall>,
    now: EncrypterView,
) -> (walk: (Seq<Seq<u8>>, Seq<int>, Seq<Seq<u8>>))
    requires
        laws::writes(public_key, calls, now),
        calls.len() > 0,
    ensures
        ({
            let (states, at, blocks) = walk;
            let n = blocks.len() as int;
            let bytes = laws::stream_of(calls);
            let ended = calls.last().finalize;
            &&& states.len() == n + 1
            &&& at.len() == n + 1
            &&& at[0] == 145
            &&& at[n] == bytes.len()
            &&& bytes.take(8) == seq![0x53u8, 0x41, 0x4c, 0x54, 0x4c, 0x49, 0x43, 0x4b]
            &&& bytes[8] == 1
            &&& bytes.subrange(9, 41) == public_key
            &&& forall|secret_key: Seq<u8>|
                secret_key.len() == 32 && #[trigger] sodium::public_key_of(secret_key)
                    == public_key ==> {
                    &&& sodium::box_opened(
                        bytes.subrange(41, 145),
                        public_key,
                        secret_key,
                    ) matches Some(message)
                    &&& message.len() == 56
                    &&& states[0] == sodium::initial_state(message.skip(32), message.take(32))
                }
            &&& forall|i: int|
                #![trigger blocks[i]]
                0 <= i < n ==> {
                    let block = blocks[i];
                    let ends = ended && i == n - 1;
                    let (length_message, between) = sodium::message_opened(
                        states[i],
                        bytes.subrange(at[i], at[i] + 21),
                    );
                    &&& length_message == Some(
                        (
                            seq![
                                (block.len() / 0x100_0000) as u8,
                                (block.len() / 0x1_0000 % 0x100) as u8,
                                (block.len() / 0x100 % 0x100) as u8,
                                (block.len() % 0x100) as u8,
                            ],
                            Tag::Message,
                        ),
                    )
                    &&& sodium::message_opened(
                        between,
                        bytes.subrange(at[i] + 21, at[i] + 21 + block.len() + 17),
                    ) == (
                        Some(
                            (
                                block,
                                if ends {
                                    Tag::Final
                                } else {
                                    Tag::Message
                                },
                            ),
                        ),
                        states[i + 1],
                    )
                    &&& at[i + 1] == at[i] + 21 + block.len() + 17
                    &&& !ends ==> block.len() > 0
                    &&& block.len() <= 8388608
                }
            &&& ended ==> n > 0 && now.pending.len() == 0
            &&& blocks.flatten() + now.pending == laws::plaintext_of(calls)
            &&& now.phase == if ended {
                EncrypterPhase::Finalized
            } else {
                EncrypterPhase::Streaming { state: states[n] }
            }
        }),
{
    let (preamble, state, cut) = laws::lemma_writes(public_key, calls, now);
    let ended = now.phase is Finalized;
    laws::law_pushes_write_stream(public_key, calls, now);
    lemma_plain_flatten(cut);
    lemma_preamble_bytes(preamble, wire::frames(state, cut), public_key, state);
    let (states, at) = lemma_frames_open(preamble, state, cut);
    let blocks = data_of(cut);
    let bytes = laws::stream_of(calls);
    let n = blocks.len() as int;
    assert forall|i: int| #![trigger blocks[i]] 0 <= i < n implies {
        let block = blocks[i];
        let ends = ended && i == n - 1;
        let (length_message, between) = sodium::message_opened(
            states[i],
            bytes.subrange(at[i], at[i] + 21),
        );
        &&& length_message == Some(
            (
                seq![
                    (block.len() / 0x100_0000) as u8,
                    (block.len() / 0x1_0000 % 0x100) as u8,
                    (block.len() / 0x100 % 0x100) as u8,
                    (block.len() % 0x100) as u8,
                ],
                Tag::Message,
            ),
        )
        &&& sodium::message_opened(
            between,
            bytes.subrange(at[i] + 21, at[i] + 21 + block.len() + 17),
        ) == (
            Some(
                (
                    block,
                    if ends {
                        Tag::Final
                    } else {
                        Tag::Message
                    },
                ),
            ),
            states[i + 1],
        )
        &&& at[i + 1] == at[i] + 21 + block.len() + 17
        &&& !ends ==> block.len() > 0
        &&& block.len() <= 8388608
    } by {
        assert(blocks[i] == cut[i].data);
    }
    (states, at, blocks)
}

/// The length that four bytes stand for, the most significant one first.
spec fn length_of_field(field: Seq<u8>) -> int {
    field[0] * 0x100_0000 + field[1] * 0x1_0000 + field[2] * 0x100 + field[3]
}

/// Whether a frame is read at `start`: two messages that open, one after the other,
/// from `state` to `next`; and only a last block may be empty.
spec fn frame_is_read(
    bytes: Seq<u8>,
    start: int,
    end: int,
    state: Seq<u8>,
    next: Seq<u8>,
    field: Seq<u8>,
    block: Seq<u8>,
    last: bool,
) -> bool {
    let length = length_of_field(field);
    let (length_message, between) = sodium::message_opened(
        state,
        bytes.subrange(start, start + 21),
    );
    &&& 0 <= start
    &&& end == start + 21 + length + 17
    &&& end <= bytes.len()
    &&& length_message == Some((field, Tag::Message))
    &&& sodium::message_opened(
        between,
        bytes.subrange(start + 21, start + 21 + length + 17),
    ) == (
        Some(
            (
                block,
                if last {
                    Tag::Final
                } else {
                    Tag::Message
                },
            ),
        ),
        next,
    )
    &&& length > 0 || last
}

/// The frames that are read off some bytes: the states in which they open, where
/// they begin, the fields with their lengths, their blocks, and whether the last of
/// them ends the stream.
proof fn lemma_frames_read(
    lead: Seq<u8>,
    state: Seq<u8>,
    input: Seq<u8>,
    found: Option<Seq<u8>>,
) -> (walk: (Seq<Seq<u8>>, Seq<int>, Seq<Seq<u8>>, Seq<Seq<u8>>, bool))
    ensures
        ({
            let (states, at, fields, blocks, ended) = walk;
            let n = blocks.len() as int;
            let bytes = lead + input;
            let end = at[n];
            let outcome = decrypter::run(DecrypterPhase::Length { state }, input, found);
            let result = outcome.result;
            let after = outcome.after;
            let failure = Err::<Seq<u8>, SaltlickError>(SaltlickError::DecryptionFailure);
            &&& states.len() == n + 1
            &&& at.len() == n + 1
            &&& fields.len() == n
            &&& at[0] == lead.len()
            &&& states[0] == state
            &&& lead.len() <= end <= bytes.len()
            &&& forall|i: int|
                #![trigger fields[i]]
                0 <= i < n ==> frame_is_read(
                    bytes,
                    at[i],
                    at[i + 1],
                    states[i],
                    states[i + 1],
                    fields[i],
                    blocks[i],
                    ended && i == n - 1,
                )
            &&& ended ==> {
                &&& n > 0
                &&& result is Ok
                &&& result->Ok_0 == blocks.flatten()
                &&& after == DecrypterView {
                    buffered: bytes.skip(end),
                    phase: DecrypterPhase::Finalized,
                }
            }
            &&& !ended ==> if bytes.len() < end + 21 {
                &&& result is Ok
                &&& result->Ok_0 == blocks.flatten()
                &&& after == DecrypterView {
                    buffered: bytes.skip(end),
                    phase: DecrypterPhase::Length { state: states[n] },
                }
            } else {
                let (length_message, between) = sodium::message_opened(
                    states[n],
                    bytes.subrange(end, end + 21),
                );
                match length_message {
                    Some((field, Tag::Message)) => {
                        let length = field[0] * 0x100_0000 + field[1] * 0x1_0000 + field[2] * 0x100
                            + field[3];
                        if length + 17 > usize::MAX {
                            result == failure
                        } else if bytes.len() < end + 21 + length + 17 {
                            &&& result is Ok
                            &&& result->Ok_0 == blocks.flatten()
                            &&& after == DecrypterView {
                                buffered: bytes.skip(end + 21),
                                phase: DecrypterPhase::Block {
                                    state: between,
                                    length: length as nat,
                                },
                            }
                        } else {
                            &&& result == failure
                            &&& match sodium::message_opened(
                                between,
                                bytes.subrange(end + 21, end + 21 + length + 17),
                            ).0 {
                                Some((_, Tag::Final)) => false,
                                Some((_, Tag::Message)) => length == 0,
                                _ => true,
                            }
                        }
                    },
                    _ => result == failure,
                }
            }
            &&& result is Err ==> after.phase is Failed
        }),
    decreases input.len(),
{
    let bytes = lead + input;
    let start = lead.len() as int;
    let phase = DecrypterPhase::Length { state };
    let outcome = decrypter::run(phase, input, found);
    assert(bytes.skip(start) =~= input);
    let (length_message, middle) = sodium::message_opened(state, input.take(21));
    let alone = (
        seq![state],
        seq![start],
        Seq::<Seq<u8>>::empty(),
        Seq::<Seq<u8>>::empty(),
        false,
    );
    assert(Seq::<Seq<u8>>::empty().flatten() =~= Seq::<u8>::empty());
    if input.len() < 21 {
        alone
    } else {
        assert(bytes.subrange(start, start + 21) =~= input.take(21));
        let after_length = input.skip(21);
        assert(bytes.skip(start + 21) =~= after_length);
        match length_message {
            Some((field, Tag::Message)) => {
                let length = length_of_field(field);
                if length + 17 > usize::MAX {
                    alone
                } else {
                    let block_phase = DecrypterPhase::Block {
                        state: middle,
                        length: length as nat,
                    };
                    let second = decrypter::run(block_phase, after_length, found);
                    assert(outcome == second.behind(Seq::empty()));
                    decrypter::lemma_behind_nothing(second);
                    if after_length.len() < length + 17 {
                        alone
                    } else {
                        let end = start + 21 + length + 17;
                        let sealed = after_length.take(length + 17);
                        let left = after_length.skip(length + 17);
                        assert(bytes.subrange(start + 21, end) =~= sealed);
                        assert(bytes.skip(end) =~= left);
                        let (block_message, next) = sodium::message_opened(middle, sealed);
                        match block_message {
                            Some((block, Tag::Final)) => {
                                let last = decrypter::run(DecrypterPhase::Finalized, left, found);
                                assert(second == last.behind(block));
                                assert(block + Seq::empty() =~= block);
                                assert(seq![block].drop_first() =~= Seq::empty());
                                assert(seq![block].flatten() =~= block) by {
                                    reveal_with_fuel(Seq::<Seq<u8>>::flatten, 2);
                                }
                                (
                                    seq![state, next],
                                    seq![start, end],
                                    seq![field],
                                    seq![block],
                                    true,
                                )
                            },
                            Some((block, Tag::Message)) => {
                                if length == 0 {
                                    alone
                                } else {
                                    let third = decrypter::run(
                                        DecrypterPhase::Length { state: next },
                                        left,
                                        found,
                                    );
                                    assert(second == third.behind(block));
                                    let later_lead = bytes.take(end);
                                    assert(later_lead + left =~= bytes);
                                    let later = lemma_frames_read(later_lead, next, left, found);
                                    lemma_walk_longer(
                                        bytes,
                                        start,
                                        state,
                                        field,
                                        block,
                                        later.0,
                                        later.1,
                                        later.2,
                                        later.3,
                                        later.4,
                                    );
                                    (
                                        seq![state] + later.0,
                                        seq![start] + later.1,
                                        seq![field] + later.2,
                                        seq![block] + later.3,
                                        later.4,
                                    )
                                }
                            },
                            _ => alone,
                        }
                    }
                }
            },
            _ => alone,
        }
    }
}

/// A frame before the frames that are read behind it.
proof fn lemma_walk_longer(
    bytes: Seq<u8>,
    start: int,
    state: Seq<u8>,
    field: Seq<u8>,
    block: Seq<u8>,
    states: Seq<Seq<u8>>,
    at: Seq<int>,
    fields: Seq<Seq<u8>>,
    blocks: Seq<Seq<u8>>,
    ended: bool,
)
    requires
        states.len() == blocks.len() + 1,
        at.len() == blocks.len() + 1,
        fields.len() == blocks.len(),
        ended ==> blocks.len() > 0,
        frame_is_read(bytes, start, at[0], state, states[0], field, block, false),
        forall|i: int|
            #![trigger fields[i]]
            0 <= i < blocks.len() ==> frame_is_read(
                bytes,
                at[i],
                at[i + 1],
                states[i],
                states[i + 1],
                fields[i],
                blocks[i],
                ended && i == blocks.len() - 1,
            ),
    ensures
        ({
            let all_states = seq![state] + states;
            let all_at = seq![start] + at;
            let all_fields = seq![field] + fields;
            let all_blocks = seq![block] + blocks;
            let n = all_blocks.len() as int;
            &&& all_blocks.flatten() == block + blocks.flatten()
            &&& all_states[n] == states[n - 1]
            &&& all_at[n] == at[n - 1]
            &&& forall|i: int|
                #![trigger all_fields[i]]
                0 <= i < n ==> frame_is_read(
                    bytes,
                    all_at[i],
                    all_at[i + 1],
                    all_states[i],
                    all_states[i + 1],
                    all_fields[i],
                    all_blocks[i],
                    ended && i == n - 1,
                )
        }),
{
    let all_states = seq![state] + states;
    let all_at = seq![start] + at;
    let all_fields = seq![field] + fields;
    let all_blocks = seq![block] + blocks;
    let n = all_blocks.len() as int;
    assert(all_blocks.drop_first() =~= blocks);
    assert forall|i: int| #![trigger all_fields[i]] 0 <= i < n implies frame_is_read(
        bytes,
        all_at[i],
        all_at[i + 1],
        all_states[i],
        all_states[i + 1],
        all_fields[i],
        all_blocks[i],
        ended && i == n - 1,
    ) by {
        assert(all_states[i + 1] == states[i] && all_at[i + 1] == at[i]);
        if i > 0 {
            assert(all_fields[i] == fields[i - 1] && all_blocks[i] == blocks[i - 1]);
            assert(all_states[i] == states[i - 1] && all_at[i] == at[i - 1]);
        }
    }
}

/// What any bytes come to before the frames, whatever pieces they are pulled in.
///
/// With fewer than nine bytes nothing can be said. Bytes that do not begin with the
/// eight magic bytes are refused, and so is any version but one. The next 32 bytes
/// are the public key. It has to be the one that the decrypter was made with; or it
/// is what the lookup is asked for, by the call that completes it and by no other.
/// The box in the next 104 bytes has to open with the key pair.
pub proof fn law_pull_before_frames(
    source: KeySource,
    found: Option<Seq<u8>>,
    calls: Seq<PullCall>,
    now: DecrypterView,
    ciphertext: Seq<u8>,
    result: Result<Seq<u8>, SaltlickError>,
    after: DecrypterView,
)
    requires
        laws::reads(source, found, calls, now),
        !(now.phase is Finalized),
        decrypter::pulled(now, ciphertext, found, result, after),
    ensures
        ({
            let earlier = laws::ciphertext_of(calls);
            let bytes = earlier + ciphertext;
            let magic = seq![0x53u8, 0x41, 0x4c, 0x54, 0x4c, 0x49, 0x43, 0x4b];
            let named = bytes.len() >= 9 && bytes.take(8) == magic && bytes[8] == 1;
            let key = bytes.subrange(9, 41);
            let own_key: Option<Seq<u8>> = match source {
                KeySource::Available { public_key, secret_key } => if public_key == key {
                    Some(secret_key)
                } else {
                    None
                },
                KeySource::Deferred => found,
            };
            let silent = result is Ok && laws::output_of(calls) + result->Ok_0 == Seq::<
                u8,
            >::empty();
            &&& result == Err::<Seq<u8>, SaltlickError>(SaltlickError::BadMagic) <==> bytes.len()
                >= 9 && bytes.take(8) != magic
            &&& result == Err::<Seq<u8>, SaltlickError>(SaltlickError::UnsupportedVersion)
                <==> bytes.len() >= 9 && bytes.take(8) == magic && bytes[8] != 1
            &&& result == Err::<Seq<u8>, SaltlickError>(SaltlickError::PublicKeyMismatch) <==> named
                && bytes.len() >= 41 && source is Available && own_key is None
            &&& result == Err::<Seq<u8>, SaltlickError>(SaltlickError::SecretKeyNotFound) <==> named
                && bytes.len() >= 41 && source is Deferred && own_key is None
            &&& bytes.len() < 9 ==> silent && after == DecrypterView {
                buffered: bytes,
                phase: DecrypterPhase::Preheader { source },
            }
            &&& named && bytes.len() < 41 ==> silent && after == DecrypterView {
                buffered: bytes.skip(9),
                phase: DecrypterPhase::PublicKey { source },
            }
            &&& named && 41 <= bytes.len() < 145 && own_key is Some ==> silent && after
                == DecrypterView {
                buffered: bytes.skip(41),
                phase: DecrypterPhase::SealedText { public_key: key, secret_key: own_key->0 },
            }
            &&& named && bytes.len() >= 145 && own_key is Some && sodium::box_opened(
                bytes.subrange(41, 145),
                key,
                own_key->0,
            ) is None ==> result == Err::<Seq<u8>, SaltlickError>(SaltlickError::DecryptionFailure)
            &&& decrypter::asked(now.phase, now.buffered + ciphertext) == if source is Deferred
                && named && earlier.len() < 41 <= bytes.len() {
                Some(key)
            } else {
                None
            }
        }),
{
    let earlier = laws::ciphertext_of(calls);
    let bytes = earlier + ciphertext;
    let start = DecrypterPhase::Preheader { source };
    let key_phase = DecrypterPhase::PublicKey { source };
    let outcome = decrypter::run(start, bytes, found);
    assert(Seq::<u8>::empty() + bytes =~= bytes);
    laws::law_pull_in_pieces(source, found, calls, now, ciphertext, result, after);
    laws::law_lookup_asked_for_stream_key(source, found, calls, now, ciphertext);
    assert(MAGIC@ =~= seq![0x53u8, 0x41, 0x4c, 0x54, 0x4c, 0x49, 0x43, 0x4b]);
    if bytes.len() >= 9 {
        laws::lemma_preheader(source, bytes, found);
        let after_preheader = bytes.skip(9);
        let second = decrypter::run(key_phase, after_preheader, found);
        decrypter::lemma_behind_nothing(second);
        if bytes.len() >= 41 {
            let key = bytes.subrange(9, 41);
            assert(after_preheader.take(32) =~= key);
            if let Ok(phase) = decrypter::resolved(source, key, found) {
                let after_key = after_preheader.skip(32);
                assert(after_key =~= bytes.skip(41));
                let third = decrypter::run(phase, after_key, found);
                assert(second == third.behind(Seq::empty()));
                decrypter::lemma_behind_nothing(third);
                lemma_errors_behind_key(phase, after_key, found);
                if bytes.len() >= 145 {
                    assert(after_key.take(104) =~= bytes.subrange(41, 145));
                }
            }
        }
    }
}

/// Behind the public key the only error is that something does not open.
proof fn lemma_errors_behind_key(phase: DecrypterPhase, input: Seq<u8>, found: Option<Seq<u8>>)
    requires
        !phase.awaits_key(),
    ensures
        decrypter::run(phase, input, found).result matches Err(e) ==> e
            == SaltlickError::DecryptionFailure,
    decreases input.len(),
{
    laws::lemma_progress_more(phase, input, Seq::empty(), found);
    if let Progress::Advance { taken, phase: next, .. } = decrypter::progress(
        phase,
        input,
        found,
    ) {
        lemma_errors_behind_key(next, input.skip(taken as int), found);
    }
}

/// What any bytes come to behind a box that opens, whatever pieces they are pulled
/// in.
///
/// Frames are read as long as they open, each in the state that the one before has
/// left. The first message of a frame has to open with the tag of an ordinary
/// message, to four bytes that give the length of the block, the most significant
/// one first. The second message has to open with the tag of an ordinary message,
/// and then it must not be empty, or with the tag of the last message, which ends
/// the stream. What comes out is what the second messages open to, one after the
/// other and as it is.
///
/// Behind the last of these frames stands the end of the stream, or a message that
/// is not complete, which is waited for; or a message that is complete and does not
/// open as it has to, which is a failure to decrypt. So nothing comes out but what
/// has opened, and a decrypter is finalized by a block alone that has opened with
/// the tag of the last message.
pub proof fn law_pull_frames(
    public_key: Seq<u8>,
    secret_key: Seq<u8>,
    message: Seq<u8>,
    source: KeySource,
    found: Option<Seq<u8>>,
    calls: Seq<PullCall>,
    now: DecrypterView,
    ciphertext: Seq<u8>,
    result: Result<Seq<u8>, SaltlickError>,
    after: DecrypterView,
) -> (walk: (Seq<Seq<u8>>, Seq<int>, Seq<Seq<u8>>, Seq<Seq<u8>>, bool))
    requires
        laws::reads(source, found, calls, now),
        !(now.phase is Finalized),
        decrypter::pulled(now, ciphertext, found, result, after),
        ({
            let bytes = laws::ciphertext_of(calls) + ciphertext;
            &&& bytes.len() >= 145
            &&& bytes.take(8) == seq![0x53u8, 0x41, 0x4c, 0x54, 0x4c, 0x49, 0x43, 0x4b]
            &&& bytes[8] == 1
            &&& bytes.subrange(9, 41) == public_key
            &&& source == KeySource::Available { public_key, secret_key } || (source is Deferred
                && found == Some(secret_key))
            &&& sodium::box_opened(bytes.subrange(41, 145), public_key, secret_key) == Some(message)
        }),
    ensures
        ({
            let (states, at, fields, blocks, ended) = walk;
            let n = blocks.len() as int;
            let bytes = laws::ciphertext_of(calls) + ciphertext;
            let end = at[n];
            let failure = Err::<Seq<u8>, SaltlickError>(SaltlickError::DecryptionFailure);
            &&& states.len() == n + 1
            &&& at.len() == n + 1
            &&& fields.len() == n
            &&& at[0] == 145
            &&& states[0] == sodium::initial_state(message.skip(32), message.take(32))
            &&& 145 <= end <= bytes.len()
            &&& forall|i: int|
                #![trigger fields[i]]
                0 <= i < n ==> {
                    let field = fields[i];
                    let last = ended && i == n - 1;
                    let length = field[0] * 0x100_0000 + field[1] * 0x1_0000 + field[2] * 0x100
                        + field[3];
                    let (length_message, between) = sodium::message_opened(
                        states[i],
                        bytes.subrange(at[i], at[i] + 21),
                    );
                    &&& length_message == Some((field, Tag::Message))
                    &&& sodium::message_opened(
                        between,
                        bytes.subrange(at[i] + 21, at[i] + 21 + length + 17),
                    ) == (
                        Some(
                            (
                                blocks[i],
                                if last {
                                    Tag::Final
                                } else {
                                    Tag::Message
                                },
                            ),
                        ),
                        states[i + 1],
                    )
                    &&& at[i + 1] == at[i] + 21 + length + 17
                    &&& length > 0 || last
                }
            &&& ended ==> {
                &&& n > 0
                &&& result is Ok
                &&& laws::output_of(calls) + result->Ok_0 == blocks.flatten()
                &&& after == DecrypterView {
                    buffered: bytes.skip(end),
                    phase: DecrypterPhase::Finalized,
                }
            }
            &&& !ended ==> if bytes.len() < end + 21 {
                &&& result is Ok
                &&& laws::output_of(calls) + result->Ok_0 == blocks.flatten()
                &&& after == DecrypterView {
                    buffered: bytes.skip(end),
                    phase: DecrypterPhase::Length { state: states[n] },
                }
            } else {
                let (length_message, between) = sodium::message_opened(
                    states[n],
                    bytes.subrange(end, end + 21),
                );
                match length_message {
                    Some((field, Tag::Message)) => {
                        let length = field[0] * 0x100_0000 + field[1] * 0x1_0000 + field[2] * 0x100
                            + field[3];
                        if length + 17 > usize::MAX {
                            result == failure
                        } else if bytes.len() < end + 21 + length + 17 {
                            &&& result is Ok
                            &&& laws::output_of(calls) + result->Ok_0 == blocks.flatten()
                            &&& after == DecrypterView {
                                buffered: bytes.skip(end + 21),
                                phase: DecrypterPhase::Block {
                                    state: between,
                                    length: length as nat,
                                },
                            }
                        } else {
                            &&& result == failure
                            &&& match sodium::message_opened(
                                between,
                                bytes.subrange(end + 21, end + 21 + length + 17),
                            ).0 {
                                Some((_, Tag::Final)) => false,
                                Some((_, Tag::Message)) => length == 0,
                                _ => true,
                            }
                        }
                    },
                    _ => result == failure,
                }
            }
            &&& result is Err ==> after.phase is Failed
        }),
{
    let bytes = laws::ciphertext_of(calls) + ciphertext;
    let start = DecrypterPhase::Preheader { source };
    let state = sodium::initial_state(message.skip(32), message.take(32));
    let lead = bytes.take(145);
    let input = bytes.skip(145);
    assert(lead + input =~= bytes);
    assert(Seq::<u8>::empty() + bytes =~= bytes);
    laws::law_pull_in_pieces(source, found, calls, now, ciphertext, result, after);
    assert(MAGIC@ =~= seq![0x53u8, 0x41, 0x4c, 0x54, 0x4c, 0x49, 0x43, 0x4b]);

    let fourth = decrypter::run(DecrypterPhase::Length { state }, input, found);
    decrypter::lemma_behind_nothing(fourth);
    let after_preheader = bytes.skip(9);
    let after_key = after_preheader.skip(32);
    assert(after_key.take(104) =~= bytes.subrange(41, 145));
    assert(after_key.skip(104) =~= input);
    let sealed_phase = DecrypterPhase::SealedText { public_key, secret_key };
    assert(decrypter::run(sealed_phase, after_key, found) == fourth.behind(Seq::empty()));
    assert(after_preheader.take(32) =~= bytes.subrange(9, 41));
    let key_phase = DecrypterPhase::PublicKey { source };
    assert(decrypter::run(key_phase, after_preheader, found) == fourth.behind(Seq::empty()));
    assert(decrypter::run(start, bytes, found) == fourth);

    let walk = lemma_frames_read(lead, state, input, found);
    let (states, at, fields, blocks, ended) = walk;
    let n = blocks.len() as int;
    assert forall|i: int| #![trigger fields[i]] 0 <= i < n implies {
        let field = fields[i];
        let last = ended && i == n - 1;
        let length = field[0] * 0x100_0000 + field[1] * 0x1_0000 + field[2] * 0x100 + field[3];
        let (length_message, between) = sodium::message_opened(
            states[i],
            bytes.subrange(at[i], at[i] + 21),
        );
        &&& length_message == Some((field, Tag::Message))
        &&& sodium::message_opened(
            between,
            bytes.subrange(at[i] + 21, at[i] + 21 + length + 17),
        ) == (
            Some(
                (
                    blocks[i],
                    if last {
                        Tag::Final
                    } else {
                        Tag::Message
                    },
                ),
            ),
            states[i + 1],
        )
        &&& at[i + 1] == at[i] + 21 + length + 17
        &&& length > 0 || last
    } by {
        assert(frame_is_read(
            bytes,
            at[i],
            at[i + 1],
            states[i],
            states[i + 1],
            fields[i],
            blocks[i],
            ended && i == n - 1,
        ));
    }
    walk
}

} // verus!
