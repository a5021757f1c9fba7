//! The bytes of a stream.
//!
//! ```text
//! stream   = preamble frame*
//! preamble = magic version public-key sealed(stream-key stream-header)
//! frame    = encrypted(length of the block) encrypted(block)
//! ```

use vstd::prelude::*;

use crate::crypter::MAX_BLOCK_SIZE;
use crate::netorder::{self, U32_LEN};
use crate::sodium::{self, Tag, ABYTES, HEADERBYTES, KEYBYTES, PUBLICKEYBYTES, SEALBYTES};
use crate::version::Version;

verus! {

/// Number of magic bytes.
pub const MAGIC_LEN: usize = 8;

/// The bytes that every stream begins with: `SALTLICK` in ASCII.
pub const MAGIC: [u8; 8] = [0x53, 0x41, 0x4c, 0x54, 0x4c, 0x49, 0x43, 0x4b];

/// Number of bytes of the magic bytes and the version.
pub const PREHEADER_LEN: usize = MAGIC_LEN + 1;

/// Number of bytes of the box that holds the stream key and the stream header.
pub const SEALEDTEXT_LEN: usize = KEYBYTES + HEADERBYTES + SEALBYTES;

/// Number of bytes of the encrypted length of a block.
pub const MESSAGE_LEN_LEN: usize = ABYTES + U32_LEN;

/// The magic bytes and the version.
pub open spec fn preheader(version: Version) -> Seq<u8> {
    MAGIC@.push(version.byte())
}

/// Number of bytes of a preamble.
pub open spec fn preamble_len() -> int {
    PREHEADER_LEN + PUBLICKEYBYTES + SEALEDTEXT_LEN
}

/// Whether `bytes` is a preamble of a stream for the owner of `public_key`,
/// whose frames are encrypted under `key` and `header`.
pub open spec fn is_preamble(
    bytes: Seq<u8>,
    public_key: Seq<u8>,
    key: Seq<u8>,
    header: Seq<u8>,
) -> bool {
    &&& key.len() == KEYBYTES
    &&& header.len() == HEADERBYTES
    &&& public_key.len() == PUBLICKEYBYTES
    &&& bytes.len() == preamble_len()
    &&& bytes.take(PREHEADER_LEN as int) == preheader(Version::V1)
    &&& bytes.subrange(PREHEADER_LEN as int, PREHEADER_LEN + PUBLICKEYBYTES) == public_key
    &&& sodium::box_holds(bytes.skip(PREHEADER_LEN + PUBLICKEYBYTES), public_key, key + header)
}

/// A block of plaintext.
pub struct Block {
    /// The bytes of the block.
    pub data: Seq<u8>,
    /// Whether it is the last block of the stream.
    pub last: bool,
}

impl Block {
    /// The tag that the block is encrypted with.
    pub open spec fn tag(self) -> Tag {
        if self.last {
            Tag::Final
        } else {
            Tag::Message
        }
    }
}

/// The bytes of all blocks, one after the other.
pub open spec fn plain(blocks: Seq<Block>) -> Seq<u8>
    decreases blocks.len(),
{
    if blocks.len() == 0 {
        Seq::empty()
    } else {
        blocks[0].data + plain(blocks.skip(1))
    }
}

/// The encrypted length of a block, and the state after it.
pub open spec fn length_sealed(state: Seq<u8>, block: Block) -> (Seq<u8>, Seq<u8>) {
    sodium::message_sealed(state, netorder::be32(block.data.len()), Tag::Message)
}

/// The encrypted block, and the state after it.
pub open spec fn block_sealed(state: Seq<u8>, block: Block) -> (Seq<u8>, Seq<u8>) {
    sodium::message_sealed(length_sealed(state, block).1, block.data, block.tag())
}

/// The frame of a block that is written in `state`.
pub open spec fn frame(state: Seq<u8>, block: Block) -> Seq<u8> {
    length_sealed(state, block).0 + block_sealed(state, block).0
}

/// The state after the frame of a block.
pub open spec fn frame_state(state: Seq<u8>, block: Block) -> Seq<u8> {
    block_sealed(state, block).1
}

/// Whether the two messages of a frame open in the states that they were sealed
/// in.
pub open spec fn frame_opens(state: Seq<u8>, block: Block) -> bool {
    &&& sodium::seals(
        state,
        netorder::be32(block.data.len()),
        Tag::Message,
        length_sealed(state, block).0,
    )
    &&& sodium::seals(
        length_sealed(state, block).1,
        block.data,
        block.tag(),
        block_sealed(state, block).0,
    )
}

/// The frames of a list of blocks, the first of which is written in `state`.
pub open spec fn frames(state: Seq<u8>, blocks: Seq<Block>) -> Seq<u8>
    decreases blocks.len(),
{
    if blocks.len() == 0 {
        Seq::empty()
    } else {
        frame(state, blocks[0]) + frames(frame_state(state, blocks[0]), blocks.skip(1))
    }
}

/// The state after the frames of a list of blocks.
pub open spec fn frames_state(state: Seq<u8>, blocks: Seq<Block>) -> Seq<u8>
    decreases blocks.len(),
{
    if blocks.len() == 0 {
        state
    } else {
        frames_state(frame_state(state, blocks[0]), blocks.skip(1))
    }
}

/// Whether the messages of all frames open in the states that they were sealed
/// in.
pub open spec fn frames_open(state: Seq<u8>, blocks: Seq<Block>) -> bool
    decreases blocks.len(),
{
    blocks.len() == 0 || {
        &&& frame_opens(state, blocks[0])
        &&& frames_open(frame_state(state, blocks[0]), blocks.skip(1))
    }
}

/// The blocks that are written of `data`: full blocks of `block_size` bytes and,
/// at the end of the stream, one more that holds what is left, be it nothing.
pub open spec fn cut(data: Seq<u8>, block_size: nat, finalize: bool) -> Seq<Block>
    decreases data.len(),
{
    if 0 < block_size <= data.len() {
        seq![Block { data: data.take(block_size as int), last: false }] + cut(
            data.skip(block_size as int),
            block_size,
            finalize,
        )
    } else if finalize {
        seq![Block { data, last: true }]
    } else {
        Seq::empty()
    }
}

/// The bytes of `data` that are held back for a later block.
pub open spec fn held_back(data: Seq<u8>, block_size: nat, finalize: bool) -> Seq<u8>
    decreases data.len(),
{
    if 0 < block_size <= data.len() {
        held_back(data.skip(block_size as int), block_size, finalize)
    } else if finalize {
        Seq::empty()
    } else {
        data
    }
}

/// Whether `blocks` can be the blocks of a stream, up to its end where it has
/// `ended`: the last one is marked as such, no other is, and no other is empty.
pub open spec fn well_cut(blocks: Seq<Block>, ended: bool) -> bool {
    &&& ended ==> blocks.len() > 0
    &&& forall|i: int|
        0 <= i < blocks.len() ==> {
            &&& (#[trigger] blocks[i]).last == (ended && i == blocks.len() - 1)
            &&& blocks[i].data.len() <= MAX_BLOCK_SIZE
            &&& blocks[i].data.len() == 0 ==> blocks[i].last
        }
}

/// The frames of two lists of blocks, one after the other.
pub proof fn lemma_frames_append(state: Seq<u8>, left: Seq<Block>, right: Seq<Block>)
    ensures
        frames(state, left + right) == frames(state, left) + frames(
            frames_state(state, left),
            right,
        ),
        frames_state(state, left + right) == frames_state(frames_state(state, left), right),
        frames_open(state, left + right) == (frames_open(state, left) && frames_open(
            frames_state(state, left),
            right,
        )),
    decreases left.len(),
{
    if left.len() == 0 {
        assert(left + right =~= right);
    } else {
        lemma_frames_append(frame_state(state, left[0]), left.skip(1), right);
        assert((left + right).skip(1) =~= left.skip(1) + right);
        assert((left + right)[0] == left[0]);
        assert(frames(state, left + right) =~= frames(state, left) + frames(
            frames_state(state, left),
            right,
        ));
    }
}

/// The frames of a list of blocks and one more.
pub proof fn lemma_frames_push(state: Seq<u8>, blocks: Seq<Block>, block: Block)
    ensures
        frames(state, blocks.push(block)) == frames(state, blocks) + frame(
            frames_state(state, blocks),
            block,
        ),
        frames_state(state, blocks.push(block)) == frame_state(frames_state(state, blocks), block),
        frames_open(state, blocks.push(block)) == (frames_open(state, blocks) && frame_opens(
            frames_state(state, blocks),
            block,
        )),
{
    let next = frames_state(state, blocks);
    lemma_frames_append(state, blocks, seq![block]);
    assert(blocks.push(block) =~= blocks + seq![block]);
    assert(seq![block].skip(1) =~= Seq::empty());
    assert(frames(next, seq![block]) =~= frame(next, block)) by {
        reveal_with_fuel(frames, 2);
    }
    assert(frames_state(next, seq![block]) == frame_state(next, block)) by {
        reveal_with_fuel(frames_state, 2);
    }
    assert(frames_open(next, seq![block]) == frame_opens(next, block)) by {
        reveal_with_fuel(frames_open, 2);
    }
}

/// The bytes of two lists of blocks, one after the other.
pub proof fn lemma_plain_append(left: Seq<Block>, right: Seq<Block>)
    ensures
        plain(left + right) == plain(left) + plain(right),
    decreases left.len(),
{
    if left.len() == 0 {
        assert(left + right =~= right);
    } else {
        lemma_plain_append(left.skip(1), right);
        assert((left + right).skip(1) =~= left.skip(1) + right);
        assert(plain(left + right) =~= plain(left) + plain(right));
    }
}

} // verus!
