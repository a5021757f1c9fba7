//! What holds of encrypters and decrypters over several calls.
//!
//! The laws speak of histories: the calls that were made, each with what it was
//! given, what it returned, and what the encrypter or decrypter looked like
//! before and after. [`encrypter::pushed`] and [`decrypter::pulled`], which the
//! contracts of the calls state, say which calls are possible.

use vstd::arithmetic::div_mod;
use vstd::prelude::*;

pub mod openings;

use crate::crypter::decrypter::{
    self, DecrypterPhase, DecrypterView, KeySource, Outcome, Progress,
};
use crate::crypter::encrypter::{self, EncrypterPhase, EncrypterView};
use crate::crypter::read::{self, ReadStatus};
use crate::crypter::{MAX_BLOCK_SIZE, MIN_BLOCK_SIZE};
use crate::error::SaltlickError;
use crate::netorder;
use crate::sodium::{self, ABYTES, KEYBYTES, PUBLICKEYBYTES, SECRETKEYBYTES};
use crate::version::Version;
use crate::wire::{self, Block, MAGIC, MAGIC_LEN, MESSAGE_LEN_LEN, PREHEADER_LEN, SEALEDTEXT_LEN};

verus! {

/// A call of `pull` that returned plaintext.
pub struct PullCall {
    /// The decrypter before the call.
    pub before: DecrypterView,
    /// The bytes that were pulled.
    pub ciphertext: Seq<u8>,
    /// The plaintext that came out.
    pub output: Seq<u8>,
    /// The decrypter after the call.
    pub after: DecrypterView,
}

/// The bytes that all calls were given.
pub open spec fn ciphertext_of(calls: Seq<PullCall>) -> Seq<u8>
    decreases calls.len(),
{
    if calls.len() == 0 {
        Seq::empty()
    } else {
        ciphertext_of(calls.drop_last()) + calls.last().ciphertext
    }
}

/// The plaintext that came out of all calls.
pub open spec fn output_of(calls: Seq<PullCall>) -> Seq<u8>
    decreases calls.len(),
{
    if calls.len() == 0 {
        Seq::empty()
    } else {
        output_of(calls.drop_last()) + calls.last().output
    }
}

/// Whether `calls` is all that has been done with a decrypter that now looks like
/// `now`. It was made with the keys of `source`; its lookup, where it is asked,
/// answers `found`.
pub open spec fn reads(
    source: KeySource,
    found: Option<Seq<u8>>,
    calls: Seq<PullCall>,
    now: DecrypterView,
) -> bool
    decreases calls.len(),
{
    if calls.len() == 0 {
        now == DecrypterView { buffered: Seq::empty(), phase: DecrypterPhase::Preheader { source } }
    } else {
        let call = calls.last();
        &&& reads(source, found, calls.drop_last(), call.before)
        &&& decrypter::pulled(call.before, call.ciphertext, found, Ok(call.output), call.after)
        &&& now == call.after
    }
}

/// What can be done with some bytes is not changed by more bytes behind them.
proof fn lemma_progress_more(
    phase: DecrypterPhase,
    input: Seq<u8>,
    more: Seq<u8>,
    found: Option<Seq<u8>>,
)
    ensures
        !(decrypter::progress(phase, input, found) is Wait) ==> decrypter::progress(
            phase,
            input + more,
            found,
        ) == decrypter::progress(phase, input, found),
        decrypter::progress(phase, input, found) matches Progress::Advance { taken, .. } ==> 0
            < taken <= input.len(),
        decrypter::progress(phase, input, found) matches Progress::Refuse { taken, .. } ==> taken
            <= input.len(),
{
    assert forall|n: int| 0 <= n <= input.len() implies #[trigger] (input + more).take(n)
        == input.take(n) by {
        assert((input + more).take(n) =~= input.take(n));
    }
}

/// Reading some bytes, and then more, comes to the same as reading all of them.
proof fn lemma_run_more(
    phase: DecrypterPhase,
    input: Seq<u8>,
    more: Seq<u8>,
    found: Option<Seq<u8>>,
)
    ensures
        ({
            let first = decrypter::run(phase, input, found);
            decrypter::run(phase, input + more, found) == match first.result {
                Ok(output) => decrypter::run(
                    first.after.phase,
                    first.after.buffered + more,
                    found,
                ).behind(output),
                Err(_) => Outcome {
                    after: DecrypterView {
                        buffered: first.after.buffered + more,
                        ..first.after
                    },
                    ..first
                },
            }
        }),
    decreases input.len(),
{
    lemma_progress_more(phase, input, more, found);
    match decrypter::progress(phase, input, found) {
        Progress::Wait => {
            decrypter::lemma_behind_nothing(decrypter::run(phase, input + more, found));
        },
        Progress::Advance { taken, output, phase: next } => {
            let left = input.skip(taken as int);
            assert((input + more).skip(taken as int) =~= left + more);
            lemma_run_more(next, left, more, found);
            let second = decrypter::run(next, left, found);
            if let Ok(rest) = second.result {
                decrypter::lemma_behind_both(
                    decrypter::run(second.after.phase, second.after.buffered + more, found),
                    output,
                    rest,
                );
            }
        },
        Progress::Refuse { taken, error } => {
            assert((input + more).skip(taken as int) =~= input.skip(taken as int) + more);
        },
    }
}

/// It makes no difference in what pieces a stream is pulled: all calls together
/// come to the same as one call with all bytes.
pub proof fn law_pull_in_pieces(
    source: KeySource,
    found: Option<Seq<u8>>,
    calls: Seq<PullCall>,
    now: DecrypterView,
    ciphertext: Seq<u8>,
    result: Result<Seq<u8>, SaltlickError>,
    after: DecrypterView,
)
    requires
        reads(source, found, calls, now),
        decrypter::pulled(now, ciphertext, found, result, after),
        !(now.phase is Finalized),
    ensures
        decrypter::pulled(
            DecrypterView { buffered: Seq::empty(), phase: DecrypterPhase::Preheader { source } },
            ciphertext_of(calls) + ciphertext,
            found,
            match result {
                Ok(output) => Ok(output_of(calls) + output),
                Err(e) => Err(e),
            },
            after,
        ),
    decreases calls.len(),
{
    let start = DecrypterView {
        buffered: Seq::<u8>::empty(),
        phase: DecrypterPhase::Preheader { source },
    };
    let outcome = Outcome { result, after };
    if calls.len() == 0 {
        assert(start.buffered + (Seq::<u8>::empty() + ciphertext) =~= start.buffered + ciphertext);
        decrypter::lemma_behind_nothing(outcome);
    } else {
        let call = calls.last();
        let earlier = calls.drop_last();
        law_pull_in_pieces(
            source,
            found,
            earlier,
            call.before,
            call.ciphertext,
            Ok(call.output),
            call.after,
        );
        let input = start.buffered + (ciphertext_of(earlier) + call.ciphertext);
        lemma_run_more(start.phase, input, ciphertext, found);
        assert(input + ciphertext =~= start.buffered + (ciphertext_of(calls) + ciphertext));
    }
}

/// From any point on, two calls come to the same as one call with the bytes of
/// both, as long as the first does not fail or reach the end of the stream: the
/// one call gives the plaintext of both, or the error that the second one gives.
pub proof fn law_pull_in_two_pieces(
    before: DecrypterView,
    first: Seq<u8>,
    found: Option<Seq<u8>>,
    first_output: Seq<u8>,
    between: DecrypterView,
    second: Seq<u8>,
    result: Result<Seq<u8>, SaltlickError>,
    after: DecrypterView,
)
    requires
        decrypter::pulled(before, first, found, Ok(first_output), between),
        !(between.phase is Finalized),
    ensures
        decrypter::pulled(between, second, found, result, after) <==> decrypter::pulled(
            before,
            first + second,
            found,
            match result {
                Ok(output) => Ok(first_output + output),
                Err(e) => Err(e),
            },
            after,
        ),
{
    let input = before.buffered + first;
    law_pull(before, first, found, Ok(first_output), between);
    lemma_run_more(before.phase, input, second, found);
    assert(before.buffered + (first + second) =~= input + second);
    let outcome = decrypter::run(between.phase, between.buffered + second, found);
    if let Ok(output) = outcome.result {
        assert((first_output + output).skip(first_output.len() as int) =~= output);
    }
    if let Ok(output) = result {
        assert((first_output + output).skip(first_output.len() as int) =~= output);
    }
}

/// A decrypter is where one call with all bytes would have brought it.
proof fn lemma_reads_run(
    source: KeySource,
    found: Option<Seq<u8>>,
    calls: Seq<PullCall>,
    now: DecrypterView,
)
    requires
        reads(source, found, calls, now),
    ensures
        decrypter::run(DecrypterPhase::Preheader { source }, ciphertext_of(calls), found) == (
        Outcome { result: Ok(output_of(calls)), after: now }),
{
    if calls.len() > 0 {
        let call = calls.last();
        law_pull_in_pieces(
            source,
            found,
            calls.drop_last(),
            call.before,
            call.ciphertext,
            Ok(call.output),
            call.after,
        );
        assert(Seq::<u8>::empty() + ciphertext_of(calls) =~= ciphertext_of(calls));
    }
}

/// Only the last of the calls that returned plaintext can have finalized the
/// decrypter.
proof fn lemma_open_before_last(
    source: KeySource,
    found: Option<Seq<u8>>,
    calls: Seq<PullCall>,
    now: DecrypterView,
)
    requires
        reads(source, found, calls, now),
    ensures
        forall|i: int|
            0 <= i < calls.len() - 1 ==> !((#[trigger] calls[i]).after.phase is Finalized),
    decreases calls.len(),
{
    if calls.len() > 0 {
        let call = calls.last();
        let earlier = calls.drop_last();
        assert(reads(source, found, earlier, call.before));
        lemma_open_before_last(source, found, earlier, call.before);
        assert forall|i: int| 0 <= i < calls.len() - 1 implies !((
        #[trigger] calls[i]).after.phase is Finalized) by {
            assert(calls[i] == earlier[i]);
            if i == earlier.len() - 1 {
                assert(earlier.last().after == call.before);
            }
        }
    }
}

/// A call of `push` that returned bytes of the stream.
pub struct PushCall {
    /// The encrypter before the call.
    pub before: EncrypterView,
    /// The plaintext that was pushed.
    pub plaintext: Seq<u8>,
    /// Whether the call was to finalize the stream.
    pub finalize: bool,
    /// The bytes that came out.
    pub output: Seq<u8>,
    /// The encrypter after the call.
    pub after: EncrypterView,
}

/// The plaintext that all calls were given.
pub open spec fn plaintext_of(calls: Seq<PushCall>) -> Seq<u8>
    decreases calls.len(),
{
    if calls.len() == 0 {
        Seq::empty()
    } else {
        plaintext_of(calls.drop_last()) + calls.last().plaintext
    }
}

/// The bytes that came out of all calls.
pub open spec fn stream_of(calls: Seq<PushCall>) -> Seq<u8>
    decreases calls.len(),
{
    if calls.len() == 0 {
        Seq::empty()
    } else {
        stream_of(calls.drop_last()) + calls.last().output
    }
}

/// Whether `calls` is all that has been pushed into an encrypter that now looks
/// like `now`. It was made with `public_key`; its block size may have been set
/// at any time.
pub open spec fn writes(public_key: Seq<u8>, calls: Seq<PushCall>, now: EncrypterView) -> bool
    decreases calls.len(),
{
    &&& MIN_BLOCK_SIZE <= now.block_size <= MAX_BLOCK_SIZE
    &&& if calls.len() == 0 {
        &&& now.pending == Seq::<u8>::empty()
        &&& now.public_key == public_key
        &&& now.phase is Start
    } else {
        let call = calls.last();
        &&& writes(public_key, calls.drop_last(), call.before)
        &&& encrypter::pushed(
            call.before,
            call.plaintext,
            call.finalize,
            Ok(call.output),
            call.after,
        )
        &&& now == EncrypterView { block_size: now.block_size, ..call.after }
    }
}

/// Whether `bytes` is a stream for the owner of `public_key`, made of a preamble
/// and of the frames of `blocks`, the first of which is written in `state`.
pub open spec fn is_stream_of(
    bytes: Seq<u8>,
    public_key: Seq<u8>,
    preamble: Seq<u8>,
    state: Seq<u8>,
    blocks: Seq<Block>,
) -> bool {
    &&& encrypter::is_started(preamble, public_key, state)
    &&& wire::frames_open(state, blocks)
    &&& bytes == preamble + wire::frames(state, blocks)
}

/// Whether `bytes` is a stream for the owner of `public_key` that holds
/// `plaintext`, up to its end where it has `ended`.
pub open spec fn is_stream(
    bytes: Seq<u8>,
    public_key: Seq<u8>,
    plaintext: Seq<u8>,
    ended: bool,
) -> bool {
    exists|preamble: Seq<u8>, state: Seq<u8>, blocks: Seq<Block>|
        {
            &&& #[trigger] is_stream_of(bytes, public_key, preamble, state, blocks)
            &&& wire::well_cut(blocks, ended)
            &&& plaintext == wire::plain(blocks)
        }
}

/// Cutting plaintext into blocks loses none of it and adds nothing.
pub proof fn law_cut(data: Seq<u8>, block_size: nat, finalize: bool)
    requires
        MIN_BLOCK_SIZE <= block_size <= MAX_BLOCK_SIZE,
    ensures
        wire::well_cut(wire::cut(data, block_size, finalize), finalize),
        wire::plain(wire::cut(data, block_size, finalize)) + wire::held_back(
            data,
            block_size,
            finalize,
        ) == data,
        wire::held_back(data, block_size, finalize).len() < block_size,
        finalize ==> wire::held_back(data, block_size, finalize).len() == 0,
    decreases data.len(),
{
    let blocks = wire::cut(data, block_size, finalize);
    let held_back = wire::held_back(data, block_size, finalize);
    if block_size <= data.len() {
        let block = Block { data: data.take(block_size as int), last: false };
        let left = data.skip(block_size as int);
        let rest = wire::cut(left, block_size, finalize);
        law_cut(left, block_size, finalize);
        assert(blocks.skip(1) =~= rest);
        assert forall|i: int| 0 <= i < blocks.len() implies {
            &&& (#[trigger] blocks[i]).last == (finalize && i == blocks.len() - 1)
            &&& blocks[i].data.len() <= MAX_BLOCK_SIZE
            &&& blocks[i].data.len() == 0 ==> blocks[i].last
        } by {
            if i > 0 {
                assert(blocks[i] == rest[i - 1]);
            }
        }
        assert(wire::plain(blocks) + held_back =~= block.data + (wire::plain(rest) + held_back));
        assert(data =~= block.data + left);
    } else if finalize {
        assert(blocks.skip(1) =~= Seq::empty());
        assert(wire::plain(blocks.skip(1)) =~= Seq::empty());
        assert(wire::plain(blocks) + held_back =~= data);
    } else {
        assert(wire::plain(blocks) + held_back =~= data);
    }
}

/// The preamble and the blocks that the calls of `push` have written.
proof fn lemma_writes(public_key: Seq<u8>, calls: Seq<PushCall>, now: EncrypterView) -> (written: (
    Seq<u8>,
    Seq<u8>,
    Seq<Block>,
))
    requires
        writes(public_key, calls, now),
        calls.len() > 0,
    ensures
        ({
            let (preamble, state, blocks) = written;
            &&& is_stream_of(stream_of(calls), public_key, preamble, state, blocks)
            &&& wire::well_cut(blocks, now.phase is Finalized)
            &&& wire::plain(blocks) + now.pending == plaintext_of(calls)
            &&& now.phase is Finalized || now.phase == EncrypterPhase::Streaming {
                state: wire::frames_state(state, blocks),
            }
        }),
        now.public_key == public_key,
        now.phase is Finalized ==> now.pending.len() == 0,
    decreases calls.len(),
{
    let call = calls.last();
    let earlier = calls.drop_last();
    let data = call.before.pending + call.plaintext;
    let size = call.before.block_size;
    let cut = wire::cut(data, size, call.finalize);
    let held_back = wire::held_back(data, size, call.finalize);
    assert(writes(public_key, earlier, call.before));
    law_cut(data, size, call.finalize);
    if earlier.len() == 0 {
        let (preamble, state) = choose|preamble: Seq<u8>, state: Seq<u8>|
            {
                &&& #[trigger] encrypter::is_started(preamble, call.before.public_key, state)
                &&& encrypter::streamed(
                    call.before,
                    preamble,
                    state,
                    data,
                    call.finalize,
                    Ok(call.output),
                    call.after,
                )
            };
        assert(stream_of(earlier) + call.output =~= call.output);
        assert(plaintext_of(earlier) + call.plaintext =~= data);
        (preamble, state, cut)
    } else {
        let (preamble, state, blocks) = lemma_writes(public_key, earlier, call.before);
        let all = blocks + cut;
        wire::lemma_frames_append(state, blocks, cut);
        wire::lemma_plain_append(blocks, cut);
        assert(Seq::<u8>::empty() + wire::frames(wire::frames_state(state, blocks), cut)
            =~= call.output);
        assert(stream_of(calls) =~= preamble + wire::frames(state, all));
        assert(wire::plain(all) + held_back =~= wire::plain(blocks) + (wire::plain(cut)
            + held_back));
        assert(wire::plain(blocks) + (call.before.pending + call.plaintext) =~= plaintext_of(
            calls,
        ));
        assert forall|i: int| 0 <= i < all.len() implies {
            &&& (#[trigger] all[i]).last == (call.finalize && i == all.len() - 1)
            &&& all[i].data.len() <= MAX_BLOCK_SIZE
            &&& all[i].data.len() == 0 ==> all[i].last
        } by {
            if i < blocks.len() {
                assert(all[i] == blocks[i]);
            } else {
                assert(all[i] == cut[i - blocks.len()]);
            }
        }
        (preamble, state, all)
    }
}

/// The plaintext that has been written, where `calls` have been pushed into an
/// encrypter that now looks like `now`: all but what is pending.
pub open spec fn written_of(calls: Seq<PushCall>, now: EncrypterView) -> Seq<u8> {
    plaintext_of(calls).take(plaintext_of(calls).len() - now.pending.len())
}

/// What the calls of `push` have returned, put together, is a stream. It holds
/// the plaintext that they were given, but for what is still pending; and it has
/// ended, with nothing pending, once a call has finalized it.
pub proof fn law_pushes_write_stream(public_key: Seq<u8>, calls: Seq<PushCall>, now: EncrypterView)
    requires
        writes(public_key, calls, now),
        calls.len() > 0,
    ensures
        is_stream(
            stream_of(calls),
            public_key,
            written_of(calls, now),
            now.phase is Finalized,
        ),
        written_of(calls, now) + now.pending == plaintext_of(calls),
        now.phase is Finalized == calls.last().finalize,
        now.phase is Finalized ==> written_of(calls, now) == plaintext_of(calls),
{
    let (preamble, state, blocks) = lemma_writes(public_key, calls, now);
    assert(is_stream_of(stream_of(calls), public_key, preamble, state, blocks));
    assert(written_of(calls, now) =~= wire::plain(blocks));
    if now.phase is Finalized {
        assert(wire::plain(blocks) + now.pending =~= wire::plain(blocks));
    }
}

/// A frame reads back. The two steps that `read::length` and `read::block` take,
/// from the state that the frame was written in, give the length of the block, then
/// the block and whether it is the last one. They leave the state behind in which
/// the next frame is written, and what follows the frame untouched.
pub proof fn law_frame_round_trip(state: Seq<u8>, block: Block, more: Seq<u8>)
    requires
        wire::frame_opens(state, block),
        block.data.len() <= u32::MAX,
        block.data.len() == 0 ==> block.last,
    ensures
        ({
            let input = wire::frame(state, block) + more;
            let length = block.data.len();
            let (length_message, middle) = sodium::message_opened(
                state,
                input.take(MESSAGE_LEN_LEN as int),
            );
            let left = input.skip(MESSAGE_LEN_LEN as int);
            let (block_message, next) = sodium::message_opened(middle, left.take(length + ABYTES));
            &&& wire::frame(state, block).len() == MESSAGE_LEN_LEN + length + ABYTES
            &&& read::length_in(length_message) == Some(length)
            &&& read::block_in(block_message, length) == Some((block.data, block.last))
            &&& next == wire::frame_state(state, block)
            &&& left.skip(length + ABYTES) == more
        }),
{
    let input = wire::frame(state, block) + more;
    let length = block.data.len();
    let sealed_length = wire::length_sealed(state, block).0;
    let sealed_block = wire::block_sealed(state, block).0;
    netorder::law_u32_round_trip(length);
    assert(input.take(MESSAGE_LEN_LEN as int) =~= sealed_length);
    let left = input.skip(MESSAGE_LEN_LEN as int);
    assert(left =~= sealed_block + more);
    assert(left.take(length + ABYTES) =~= sealed_block);
    assert(left.skip(length + ABYTES) =~= more);
}

/// Reading a whole frame gives its block, and goes on behind it.
proof fn lemma_run_frame(state: Seq<u8>, block: Block, more: Seq<u8>, found: Option<Seq<u8>>)
    requires
        wire::frame_opens(state, block),
        block.data.len() <= MAX_BLOCK_SIZE,
        block.data.len() == 0 ==> block.last,
    ensures
        decrypter::run(
            DecrypterPhase::Length { state },
            wire::frame(state, block) + more,
            found,
        ) == decrypter::run(
            if block.last {
                DecrypterPhase::Finalized
            } else {
                DecrypterPhase::Length { state: wire::frame_state(state, block) }
            },
            more,
            found,
        ).behind(block.data),
{
    let input = wire::frame(state, block) + more;
    let length = block.data.len();
    let middle = wire::length_sealed(state, block).1;
    let block_phase = DecrypterPhase::Block { state: middle, length };
    let after_length = input.skip(MESSAGE_LEN_LEN as int);
    law_frame_round_trip(state, block, more);
    assert(input.take(MESSAGE_LEN_LEN as int) =~= wire::length_sealed(state, block).0);
    let outcome = decrypter::run(block_phase, after_length, found);
    assert(decrypter::run(DecrypterPhase::Length { state }, input, found) == outcome.behind(
        Seq::empty(),
    ));
    decrypter::lemma_behind_nothing(outcome);
}

/// Reading a part of a frame gives nothing.
proof fn lemma_run_frame_part(
    state: Seq<u8>,
    block: Block,
    part: Seq<u8>,
    found: Option<Seq<u8>>,
)
    requires
        wire::frame_opens(state, block),
        block.data.len() <= MAX_BLOCK_SIZE,
        block.data.len() == 0 ==> block.last,
        part.is_prefix_of(wire::frame(state, block)),
        part.len() < wire::frame(state, block).len(),
    ensures
        decrypter::run(DecrypterPhase::Length { state }, part, found).result == Ok::<
            Seq<u8>,
            SaltlickError,
        >(Seq::empty()),
{
    let length = block.data.len();
    let middle = wire::length_sealed(state, block).1;
    let block_phase = DecrypterPhase::Block { state: middle, length };
    law_frame_round_trip(state, block, Seq::empty());
    assert(wire::frame(state, block) + Seq::empty() =~= wire::frame(state, block));
    if part.len() >= MESSAGE_LEN_LEN {
        let after_length = part.skip(MESSAGE_LEN_LEN as int);
        assert(part.take(MESSAGE_LEN_LEN as int) =~= wire::length_sealed(state, block).0);
        let outcome = decrypter::run(block_phase, after_length, found);
        assert(decrypter::run(DecrypterPhase::Length { state }, part, found) == outcome.behind(
            Seq::empty(),
        ));
        decrypter::lemma_behind_nothing(outcome);
    }
}

/// Reading the frames of some blocks gives the blocks.
proof fn lemma_run_frames(state: Seq<u8>, blocks: Seq<Block>, ended: bool, found: Option<Seq<u8>>)
    requires
        wire::frames_open(state, blocks),
        wire::well_cut(blocks, ended),
    ensures
        decrypter::run(
            DecrypterPhase::Length { state },
            wire::frames(state, blocks),
            found,
        ) == (Outcome {
            result: Ok(wire::plain(blocks)),
            after: DecrypterView {
                buffered: Seq::empty(),
                phase: if ended {
                    DecrypterPhase::Finalized
                } else {
                    DecrypterPhase::Length { state: wire::frames_state(state, blocks) }
                },
            },
        }),
    decreases blocks.len(),
{
    if blocks.len() > 0 {
        let block = blocks[0];
        let next = wire::frame_state(state, block);
        let rest = blocks.skip(1);
        let left = wire::frames(next, rest);
        lemma_run_frame(state, block, left, found);
        if block.last {
            assert(rest =~= Seq::empty());
            assert(left =~= Seq::empty());
            assert(wire::plain(rest) =~= Seq::empty());
            assert(block.data + Seq::empty() =~= wire::plain(blocks));
        } else {
            assert forall|i: int| 0 <= i < rest.len() implies {
                &&& (#[trigger] rest[i]).last == (ended && i == rest.len() - 1)
                &&& rest[i].data.len() <= MAX_BLOCK_SIZE
                &&& rest[i].data.len() == 0 ==> rest[i].last
            } by {
                assert(rest[i] == blocks[i + 1]);
            }
            lemma_run_frames(next, rest, ended, found);
        }
    }
}

/// Whether the keys of a decrypter, or the answer of its lookup, are those that a
/// stream for the owner of `public_key` is opened with.
pub open spec fn opens_with(
    source: KeySource,
    found: Option<Seq<u8>>,
    public_key: Seq<u8>,
    secret_key: Seq<u8>,
) -> bool {
    &&& secret_key.len() == SECRETKEYBYTES
    &&& public_key == sodium::public_key_of(secret_key)
    &&& source == KeySource::Available { public_key, secret_key } || (source is Deferred && found
        == Some(secret_key))
}

/// Reading a stream comes to its frames, with the keys that it is opened with.
proof fn lemma_run_stream(
    bytes: Seq<u8>,
    public_key: Seq<u8>,
    secret_key: Seq<u8>,
    preamble: Seq<u8>,
    state: Seq<u8>,
    blocks: Seq<Block>,
    source: KeySource,
    found: Option<Seq<u8>>,
)
    requires
        is_stream_of(bytes, public_key, preamble, state, blocks),
        opens_with(source, found, public_key, secret_key),
    ensures
        decrypter::run(DecrypterPhase::Preheader { source }, bytes, found) == decrypter::run(
            DecrypterPhase::Length { state },
            wire::frames(state, blocks),
            found,
        ),
{
    let (key, header) = choose|key: Seq<u8>, header: Seq<u8>|
        {
            &&& #[trigger] wire::is_preamble(preamble, public_key, key, header)
            &&& state == sodium::initial_state(header, key)
        };
    let frames = wire::frames(state, blocks);
    let outcome = decrypter::run(DecrypterPhase::Length { state }, frames, found);
    decrypter::lemma_behind_nothing(outcome);

    let after_key = bytes.skip(PREHEADER_LEN as int).skip(PUBLICKEYBYTES as int);
    let sealed = preamble.skip(PREHEADER_LEN + PUBLICKEYBYTES);
    let sealed_phase = DecrypterPhase::SealedText { public_key, secret_key };
    assert(after_key.take(SEALEDTEXT_LEN as int) =~= sealed);
    assert(after_key.skip(SEALEDTEXT_LEN as int) =~= frames);
    assert((key + header).take(KEYBYTES as int) =~= key);
    assert((key + header).skip(KEYBYTES as int) =~= header);
    assert(decrypter::run(sealed_phase, after_key, found) == outcome.behind(Seq::empty()));

    let after_preheader = bytes.skip(PREHEADER_LEN as int);
    let key_phase = DecrypterPhase::PublicKey { source };
    assert(after_preheader.take(PUBLICKEYBYTES as int) =~= preamble.subrange(
        PREHEADER_LEN as int,
        PREHEADER_LEN + PUBLICKEYBYTES,
    ));
    assert(decrypter::run(key_phase, after_preheader, found) == outcome.behind(Seq::empty()));

    let preheader = wire::preheader(Version::V1);
    assert(bytes.take(PREHEADER_LEN as int) =~= preheader);
    assert(bytes.take(MAGIC_LEN as int) =~= preheader.take(MAGIC_LEN as int));
    assert(preheader.take(MAGIC_LEN as int) =~= MAGIC@);
    assert(bytes[MAGIC_LEN as int] == preheader[MAGIC_LEN as int]);
}

/// Pulling a stream with its keys, in any pieces, never fails. At every point what
/// has come out is the beginning of the plaintext that the stream holds. All of it
/// has come out when the whole stream has been pulled, and the decrypter is
/// finalized exactly when that stream has ended: a stream that is cut short never
/// finalizes it.
pub proof fn law_pull_stream(
    stream: Seq<u8>,
    public_key: Seq<u8>,
    secret_key: Seq<u8>,
    plaintext: Seq<u8>,
    ended: bool,
    source: KeySource,
    found: Option<Seq<u8>>,
    calls: Seq<PullCall>,
    now: DecrypterView,
    ciphertext: Seq<u8>,
    result: Result<Seq<u8>, SaltlickError>,
    after: DecrypterView,
)
    requires
        is_stream(stream, public_key, plaintext, ended),
        opens_with(source, found, public_key, secret_key),
        reads(source, found, calls, now),
        !(now.phase is Finalized),
        decrypter::pulled(now, ciphertext, found, result, after),
        (ciphertext_of(calls) + ciphertext).is_prefix_of(stream),
    ensures
        result is Ok,
        (output_of(calls) + result->Ok_0).is_prefix_of(plaintext),
        after.phase is Finalized <==> ended && ciphertext_of(calls) + ciphertext == stream,
        ciphertext_of(calls) + ciphertext == stream ==> {
            &&& output_of(calls) + result->Ok_0 == plaintext
            &&& after.buffered == Seq::<u8>::empty()
        },
{
    let (preamble, state, blocks) = choose|preamble: Seq<u8>, state: Seq<u8>, blocks: Seq<Block>|
        {
            &&& #[trigger] is_stream_of(stream, public_key, preamble, state, blocks)
            &&& wire::well_cut(blocks, ended)
            &&& plaintext == wire::plain(blocks)
        };
    let start = DecrypterPhase::Preheader { source };
    let pulled = ciphertext_of(calls) + ciphertext;
    let more = stream.skip(pulled.len() as int);
    let first = decrypter::run(start, pulled, found);
    assert(Seq::<u8>::empty() + pulled =~= pulled);
    law_pull_in_pieces(source, found, calls, now, ciphertext, result, after);
    lemma_run_stream(stream, public_key, secret_key, preamble, state, blocks, source, found);
    lemma_run_frames(state, blocks, ended, found);
    assert(pulled + more =~= stream);
    lemma_run_more(start, pulled, more, found);
    assert(first.result is Ok);
    let output = first.result->Ok_0;
    let second = decrypter::run(after.phase, after.buffered + more, found);
    assert(plaintext == output + second.result->Ok_0);
    assert(output =~= plaintext.subrange(0, output.len() as int));
    if pulled == stream {
        assert(pulled =~= stream);
    }
}

/// A decrypter is not finalized as long as it has not pulled a whole stream to its
/// end.
proof fn lemma_open_before_end(
    stream: Seq<u8>,
    public_key: Seq<u8>,
    secret_key: Seq<u8>,
    plaintext: Seq<u8>,
    ended: bool,
    source: KeySource,
    found: Option<Seq<u8>>,
    calls: Seq<PullCall>,
    now: DecrypterView,
)
    requires
        is_stream(stream, public_key, plaintext, ended),
        opens_with(source, found, public_key, secret_key),
        reads(source, found, calls, now),
        ciphertext_of(calls).is_prefix_of(stream),
        ended ==> ciphertext_of(calls).len() < stream.len(),
    ensures
        !(now.phase is Finalized),
{
    if calls.len() > 0 {
        let call = calls.last();
        law_pull_stream(
            stream,
            public_key,
            secret_key,
            plaintext,
            ended,
            source,
            found,
            calls.drop_last(),
            call.before,
            call.ciphertext,
            Ok(call.output),
            call.after,
        );
    }
}

/// Bytes behind the end of a stream are left alone: the call that reaches the end
/// gives the rest of the plaintext and finalizes the decrypter, and what follows
/// the stream stays buffered.
pub proof fn law_pull_past_end(
    stream: Seq<u8>,
    more: Seq<u8>,
    public_key: Seq<u8>,
    secret_key: Seq<u8>,
    plaintext: Seq<u8>,
    source: KeySource,
    found: Option<Seq<u8>>,
    calls: Seq<PullCall>,
    now: DecrypterView,
    ciphertext: Seq<u8>,
    result: Result<Seq<u8>, SaltlickError>,
    after: DecrypterView,
)
    requires
        is_stream(stream, public_key, plaintext, true),
        opens_with(source, found, public_key, secret_key),
        reads(source, found, calls, now),
        !(now.phase is Finalized),
        decrypter::pulled(now, ciphertext, found, result, after),
        ciphertext_of(calls) + ciphertext == stream + more,
    ensures
        result is Ok,
        output_of(calls) + result->Ok_0 == plaintext,
        after == (DecrypterView { buffered: more, phase: DecrypterPhase::Finalized }),
{
    let (preamble, state, blocks) = choose|preamble: Seq<u8>, state: Seq<u8>, blocks: Seq<Block>|
        {
            &&& #[trigger] is_stream_of(stream, public_key, preamble, state, blocks)
            &&& wire::well_cut(blocks, true)
            &&& plaintext == wire::plain(blocks)
        };
    let start = DecrypterPhase::Preheader { source };
    assert(Seq::<u8>::empty() + (stream + more) =~= stream + more);
    law_pull_in_pieces(source, found, calls, now, ciphertext, result, after);
    lemma_run_stream(stream, public_key, secret_key, preamble, state, blocks, source, found);
    lemma_run_frames(state, blocks, true, found);
    lemma_run_more(start, stream, more, found);
    assert(Seq::<u8>::empty() + more =~= more);
    assert(plaintext + Seq::empty() =~= plaintext);
}

/// A call that pulls a further piece of what an encrypter has written, with the
/// keys of the recipient, succeeds. What has come out is the beginning of what was
/// pushed. The decrypter is finalized exactly when this piece is the last one of a
/// finalized stream; then all that was pushed has come out.
pub proof fn law_pull_pushed(
    public_key: Seq<u8>,
    secret_key: Seq<u8>,
    pushes: Seq<PushCall>,
    encrypter: EncrypterView,
    source: KeySource,
    found: Option<Seq<u8>>,
    calls: Seq<PullCall>,
    now: DecrypterView,
    ciphertext: Seq<u8>,
    result: Result<Seq<u8>, SaltlickError>,
    after: DecrypterView,
)
    requires
        writes(public_key, pushes, encrypter),
        pushes.len() > 0,
        opens_with(source, found, public_key, secret_key),
        reads(source, found, calls, now),
        ciphertext.len() > 0,
        (ciphertext_of(calls) + ciphertext).is_prefix_of(stream_of(pushes)),
        decrypter::pulled(now, ciphertext, found, result, after),
    ensures
        result is Ok,
        (output_of(calls) + result->Ok_0).is_prefix_of(plaintext_of(pushes)),
        after.phase is Finalized <==> encrypter.phase is Finalized && ciphertext_of(calls)
            + ciphertext == stream_of(pushes),
        after.phase is Finalized ==> output_of(calls) + result->Ok_0 == plaintext_of(pushes),
{
    let stream = stream_of(pushes);
    let written = written_of(pushes, encrypter);
    let ended = encrypter.phase is Finalized;
    let earlier = ciphertext_of(calls);
    law_pushes_write_stream(public_key, pushes, encrypter);
    assert(earlier =~= stream.subrange(0, earlier.len() as int)) by {
        assert(earlier =~= (earlier + ciphertext).subrange(0, earlier.len() as int));
    }
    lemma_open_before_end(
        stream,
        public_key,
        secret_key,
        written,
        ended,
        source,
        found,
        calls,
        now,
    );
    law_pull_stream(
        stream,
        public_key,
        secret_key,
        written,
        ended,
        source,
        found,
        calls,
        now,
        ciphertext,
        result,
        after,
    );
    let output = output_of(calls) + result->Ok_0;
    assert(output =~= plaintext_of(pushes).subrange(0, output.len() as int)) by {
        assert(output =~= written.subrange(0, output.len() as int));
    }
}

/// What was pushed is what comes out. Where an encrypter has written a stream, and
/// a decrypter with the keys of the recipient has pulled that stream, each in any
/// pieces, then the decrypter has given back what the encrypter has written, and
/// is finalized exactly when the encrypter is, and not before the last piece.
/// Nothing is then left over: all that was pushed has come out.
pub proof fn law_round_trip(
    public_key: Seq<u8>,
    secret_key: Seq<u8>,
    pushes: Seq<PushCall>,
    encrypter: EncrypterView,
    source: KeySource,
    found: Option<Seq<u8>>,
    pulls: Seq<PullCall>,
    decrypter: DecrypterView,
)
    requires
        writes(public_key, pushes, encrypter),
        pushes.len() > 0,
        opens_with(source, found, public_key, secret_key),
        reads(source, found, pulls, decrypter),
        ciphertext_of(pulls) == stream_of(pushes),
    ensures
        output_of(pulls) == written_of(pushes, encrypter),
        output_of(pulls) + encrypter.pending == plaintext_of(pushes),
        decrypter.phase is Finalized <==> encrypter.phase is Finalized,
        decrypter.buffered == Seq::<u8>::empty(),
        encrypter.phase is Finalized ==> output_of(pulls) == plaintext_of(pushes),
        forall|i: int|
            0 <= i < pulls.len() - 1 ==> !((#[trigger] pulls[i]).after.phase is Finalized),
{
    lemma_open_before_last(source, found, pulls, decrypter);
    law_pushes_write_stream(public_key, pushes, encrypter);
    let (preamble, state, blocks) = lemma_writes(public_key, pushes, encrypter);
    assert(stream_of(pushes).len() > 0);
    let call = pulls.last();
    law_pull_stream(
        stream_of(pushes),
        public_key,
        secret_key,
        written_of(pushes, encrypter),
        encrypter.phase is Finalized,
        source,
        found,
        pulls.drop_last(),
        call.before,
        call.ciphertext,
        Ok(call.output),
        call.after,
    );
}

/// A stream for another public key than the one that the decrypter was made with
/// is refused as soon as the whole public key of the stream has been pulled.
pub proof fn law_other_public_key_refused(
    stream: Seq<u8>,
    stream_key: Seq<u8>,
    plaintext: Seq<u8>,
    ended: bool,
    public_key: Seq<u8>,
    secret_key: Seq<u8>,
    found: Option<Seq<u8>>,
    calls: Seq<PullCall>,
    now: DecrypterView,
    ciphertext: Seq<u8>,
    result: Result<Seq<u8>, SaltlickError>,
    after: DecrypterView,
)
    requires
        is_stream(stream, stream_key, plaintext, ended),
        stream_key != public_key,
        reads(KeySource::Available { public_key, secret_key }, found, calls, now),
        decrypter::pulled(now, ciphertext, found, result, after),
        (ciphertext_of(calls) + ciphertext).is_prefix_of(stream),
        (ciphertext_of(calls) + ciphertext).len() >= PREHEADER_LEN + PUBLICKEYBYTES,
    ensures
        result == Err::<Seq<u8>, SaltlickError>(SaltlickError::PublicKeyMismatch),
        after.phase is Failed,
{
    lemma_stream_key_settles(
        stream,
        stream_key,
        plaintext,
        ended,
        KeySource::Available { public_key, secret_key },
        found,
        calls,
        now,
        ciphertext,
        result,
        after,
    );
}

/// A stream is refused where the lookup knows no secret key for its public key, as
/// soon as the whole public key has been pulled.
pub proof fn law_unknown_key_refused(
    stream: Seq<u8>,
    stream_key: Seq<u8>,
    plaintext: Seq<u8>,
    ended: bool,
    calls: Seq<PullCall>,
    now: DecrypterView,
    ciphertext: Seq<u8>,
    result: Result<Seq<u8>, SaltlickError>,
    after: DecrypterView,
)
    requires
        is_stream(stream, stream_key, plaintext, ended),
        reads(KeySource::Deferred, None, calls, now),
        decrypter::pulled(now, ciphertext, None, result, after),
        (ciphertext_of(calls) + ciphertext).is_prefix_of(stream),
        (ciphertext_of(calls) + ciphertext).len() >= PREHEADER_LEN + PUBLICKEYBYTES,
    ensures
        result == Err::<Seq<u8>, SaltlickError>(SaltlickError::SecretKeyNotFound),
        after.phase is Failed,
{
    lemma_stream_key_settles(
        stream,
        stream_key,
        plaintext,
        ended,
        KeySource::Deferred,
        None,
        calls,
        now,
        ciphertext,
        result,
        after,
    );
}

/// Where the public key of a stream leads to no secret key, pulling the stream
/// ends with the error that says so.
proof fn lemma_stream_key_settles(
    stream: Seq<u8>,
    stream_key: Seq<u8>,
    plaintext: Seq<u8>,
    ended: bool,
    source: KeySource,
    found: Option<Seq<u8>>,
    calls: Seq<PullCall>,
    now: DecrypterView,
    ciphertext: Seq<u8>,
    result: Result<Seq<u8>, SaltlickError>,
    after: DecrypterView,
)
    requires
        is_stream(stream, stream_key, plaintext, ended),
        decrypter::resolved(source, stream_key, found) is Err,
        reads(source, found, calls, now),
        decrypter::pulled(now, ciphertext, found, result, after),
        (ciphertext_of(calls) + ciphertext).is_prefix_of(stream),
        (ciphertext_of(calls) + ciphertext).len() >= PREHEADER_LEN + PUBLICKEYBYTES,
    ensures
        result == Err::<Seq<u8>, SaltlickError>(
            decrypter::resolved(source, stream_key, found)->Err_0,
        ),
        after.phase is Failed,
{
    let (preamble, state, blocks) = choose|preamble: Seq<u8>, state: Seq<u8>, blocks: Seq<Block>|
        {
            &&& #[trigger] is_stream_of(stream, stream_key, preamble, state, blocks)
            &&& wire::well_cut(blocks, ended)
            &&& plaintext == wire::plain(blocks)
        };
    let (key, header) = choose|key: Seq<u8>, header: Seq<u8>|
        {
            &&& #[trigger] wire::is_preamble(preamble, stream_key, key, header)
            &&& state == sodium::initial_state(header, key)
        };
    let pulled = ciphertext_of(calls) + ciphertext;
    let preheader = wire::preheader(Version::V1);
    assert(Seq::<u8>::empty() + pulled =~= pulled);
    assert(preamble.take(PREHEADER_LEN as int) =~= pulled.take(PREHEADER_LEN as int));
    assert(pulled.take(MAGIC_LEN as int) =~= preheader.take(MAGIC_LEN as int));
    assert(preheader.take(MAGIC_LEN as int) =~= MAGIC@);
    assert(pulled[MAGIC_LEN as int] == preheader[MAGIC_LEN as int]);
    let after_preheader = pulled.skip(PREHEADER_LEN as int);
    assert(after_preheader.take(PUBLICKEYBYTES as int) =~= preamble.subrange(
        PREHEADER_LEN as int,
        PREHEADER_LEN + PUBLICKEYBYTES,
    ));
    let key_phase = DecrypterPhase::PublicKey { source };
    assert(decrypter::run(key_phase, after_preheader, found).result is Err);
    lemma_reads_run(source, found, calls, now);
    lemma_run_more(DecrypterPhase::Preheader { source }, ciphertext_of(calls), ciphertext, found);
    law_pull_in_pieces(source, found, calls, now, ciphertext, result, after);
}

/// What does not begin with the magic bytes is refused as soon as there are enough
/// bytes to tell; so is what has another version than the supported one.
pub proof fn law_bad_preheader_refused(
    source: KeySource,
    found: Option<Seq<u8>>,
    calls: Seq<PullCall>,
    now: DecrypterView,
    ciphertext: Seq<u8>,
    result: Result<Seq<u8>, SaltlickError>,
    after: DecrypterView,
)
    requires
        reads(source, found, calls, now),
        decrypter::pulled(now, ciphertext, found, result, after),
        (ciphertext_of(calls) + ciphertext).len() >= PREHEADER_LEN,
    ensures
        (ciphertext_of(calls) + ciphertext).take(MAGIC_LEN as int) != MAGIC@ ==> result == Err::<
            Seq<u8>,
            SaltlickError,
        >(SaltlickError::BadMagic),
        (ciphertext_of(calls) + ciphertext).take(MAGIC_LEN as int) == MAGIC@ && (ciphertext_of(
            calls,
        ) + ciphertext)[MAGIC_LEN as int] != Version::V1.byte() ==> result == Err::<
            Seq<u8>,
            SaltlickError,
        >(SaltlickError::UnsupportedVersion),
{
    let pulled = ciphertext_of(calls) + ciphertext;
    assert(Seq::<u8>::empty() + pulled =~= pulled);
    lemma_reads_run(source, found, calls, now);
    lemma_run_more(DecrypterPhase::Preheader { source }, ciphertext_of(calls), ciphertext, found);
    if !(now.phase is Finalized) {
        law_pull_in_pieces(source, found, calls, now, ciphertext, result, after);
    }
}

/// Once the secret key is settled it stays settled.
proof fn lemma_key_stays_settled(
    phase: DecrypterPhase,
    input: Seq<u8>,
    found: Option<Seq<u8>>,
    other: Option<Seq<u8>>,
)
    requires
        !phase.awaits_key(),
    ensures
        !decrypter::run(phase, input, found).after.phase.awaits_key(),
        decrypter::run(phase, input, found) == decrypter::run(phase, input, other),
    decreases input.len(),
{
    lemma_progress_more(phase, input, Seq::empty(), found);
    if let Progress::Advance { taken, phase: next, .. } = decrypter::progress(
        phase,
        input,
        found,
    ) {
        lemma_key_stays_settled(next, input.skip(taken as int), found, other);
    }
}

/// The answer of the lookup matters only to the call that asks for it. That call
/// settles the key: after it, nothing is asked any more.
pub proof fn law_lookup_asked_once(
    before: DecrypterView,
    ciphertext: Seq<u8>,
    found: Option<Seq<u8>>,
    other: Option<Seq<u8>>,
    result: Result<Seq<u8>, SaltlickError>,
    after: DecrypterView,
)
    requires
        decrypter::pulled(before, ciphertext, found, result, after),
    ensures
        decrypter::asked(before.phase, before.buffered + ciphertext) is None ==> decrypter::pulled(
            before,
            ciphertext,
            other,
            result,
            after,
        ),
        decrypter::asked(before.phase, before.buffered + ciphertext) is Some
            ==> !after.phase.awaits_key(),
        !after.phase.awaits_key() ==> forall|input: Seq<u8>| #[trigger]
            decrypter::asked(after.phase, input) is None,
{
    let input = before.buffered + ciphertext;
    match before.phase {
        DecrypterPhase::Preheader { source } => {
            let left = input.skip(PREHEADER_LEN as int);
            lemma_key_settles(source, left, found, other);
        },
        DecrypterPhase::PublicKey { source } => {
            lemma_key_settles(source, input, found, other);
        },
        _ => {
            lemma_key_stays_settled(before.phase, input, found, other);
        },
    }
}

/// Reading the public key of the stream settles the secret key, which depends on
/// the answer of the lookup only where there is one.
proof fn lemma_key_settles(
    source: KeySource,
    input: Seq<u8>,
    found: Option<Seq<u8>>,
    other: Option<Seq<u8>>,
)
    ensures
        ({
            let phase = DecrypterPhase::PublicKey { source };
            let outcome = decrypter::run(phase, input, found);
            &&& input.len() >= PUBLICKEYBYTES ==> !outcome.after.phase.awaits_key()
            &&& decrypter::asked(phase, input) is None ==> outcome == decrypter::run(
                phase,
                input,
                other,
            )
        }),
{
    let phase = DecrypterPhase::PublicKey { source };
    if let Progress::Advance { taken, phase: next, .. } = decrypter::progress(
        phase,
        input,
        found,
    ) {
        lemma_key_stays_settled(next, input.skip(taken as int), found, other);
    }
}

/// A lookup is asked in the call that brings the last byte of the public key, and
/// in no other, whatever pieces the bytes are pulled in; and it is asked only where
/// the magic bytes and the version before the key are right. It is asked for the
/// public key that the stream names.
pub proof fn law_lookup_asked_for_stream_key(
    source: KeySource,
    found: Option<Seq<u8>>,
    calls: Seq<PullCall>,
    now: DecrypterView,
    ciphertext: Seq<u8>,
)
    requires
        reads(source, found, calls, now),
    ensures
        ({
            let pulled = ciphertext_of(calls) + ciphertext;
            decrypter::asked(now.phase, now.buffered + ciphertext) == if source is Deferred
                && ciphertext_of(calls).len() < PREHEADER_LEN + PUBLICKEYBYTES <= pulled.len()
                && pulled.take(PREHEADER_LEN as int) == wire::preheader(Version::V1) {
                Some(pulled.subrange(PREHEADER_LEN as int, PREHEADER_LEN + PUBLICKEYBYTES))
            } else {
                None
            }
        }),
{
    let start = DecrypterPhase::Preheader { source };
    let key_phase = DecrypterPhase::PublicKey { source };
    let earlier = ciphertext_of(calls);
    let pulled = earlier + ciphertext;
    let left = earlier.skip(PREHEADER_LEN as int);
    lemma_reads_run(source, found, calls, now);
    if pulled.len() >= PREHEADER_LEN {
        lemma_preheader(source, pulled, None);
    }
    if earlier.len() >= PREHEADER_LEN {
        lemma_preheader(source, earlier, found);
        assert(earlier.take(PREHEADER_LEN as int) =~= pulled.take(PREHEADER_LEN as int));
        decrypter::lemma_behind_nothing(decrypter::run(key_phase, left, found));
        lemma_key_settles(source, left, found, found);
        assert(left + ciphertext =~= pulled.skip(PREHEADER_LEN as int));
    }
    if pulled.len() >= PREHEADER_LEN + PUBLICKEYBYTES {
        assert(pulled.skip(PREHEADER_LEN as int).take(PUBLICKEYBYTES as int) =~= pulled.subrange(
            PREHEADER_LEN as int,
            PREHEADER_LEN + PUBLICKEYBYTES,
        ));
    }
}

/// The magic bytes and the version are read on exactly when they are right.
proof fn lemma_preheader(source: KeySource, input: Seq<u8>, found: Option<Seq<u8>>)
    requires
        input.len() >= PREHEADER_LEN,
    ensures
        input.take(PREHEADER_LEN as int) == wire::preheader(Version::V1) <==> decrypter::progress(
            DecrypterPhase::Preheader { source },
            input,
            found,
        ) is Advance,
{
    let preheader = wire::preheader(Version::V1);
    let read = input.take(PREHEADER_LEN as int);
    assert(preheader.take(MAGIC_LEN as int) =~= MAGIC@);
    assert(read.take(MAGIC_LEN as int) =~= input.take(MAGIC_LEN as int));
    assert(read[MAGIC_LEN as int] == input[MAGIC_LEN as int]);
    assert(preheader[MAGIC_LEN as int] == Version::V1.byte());
    if input.take(MAGIC_LEN as int) == MAGIC@ && input[MAGIC_LEN as int] == Version::V1.byte() {
        assert forall|i: int| 0 <= i < MAGIC_LEN implies read[i] == preheader[i] by {
            assert(input.take(MAGIC_LEN as int)[i] == MAGIC@[i]);
        }
        assert(read =~= preheader);
    }
}

/// A pull ends with the error that there is no secret key exactly when it asks the
/// lookup and the lookup knows none.
pub proof fn law_secret_key_not_found(
    before: DecrypterView,
    ciphertext: Seq<u8>,
    found: Option<Seq<u8>>,
    result: Result<Seq<u8>, SaltlickError>,
    after: DecrypterView,
)
    requires
        decrypter::pulled(before, ciphertext, found, result, after),
    ensures
        result == Err::<Seq<u8>, SaltlickError>(SaltlickError::SecretKeyNotFound) <==> {
            &&& decrypter::asked(before.phase, before.buffered + ciphertext) is Some
            &&& found is None
        },
{
    lemma_run_key_error(before.phase, before.buffered + ciphertext, found);
}

/// Reading ends with the error that there is no secret key exactly when the lookup
/// is asked and knows none.
proof fn lemma_run_key_error(phase: DecrypterPhase, input: Seq<u8>, found: Option<Seq<u8>>)
    ensures
        decrypter::run(phase, input, found).result == Err::<Seq<u8>, SaltlickError>(
            SaltlickError::SecretKeyNotFound,
        ) <==> decrypter::asked(phase, input) is Some && found is None,
    decreases input.len(),
{
    lemma_progress_more(phase, input, Seq::empty(), found);
    if let Progress::Advance { taken, phase: next, .. } = decrypter::progress(
        phase,
        input,
        found,
    ) {
        lemma_run_key_error(next, input.skip(taken as int), found);
    }
}

/// Where the bytes begin with the right magic bytes and version, the call that
/// brings the last byte of the public key asks the lookup, for that key. It ends
/// with the error that there is no secret key exactly when the lookup knows none,
/// and no call before or after it asks anything.
pub proof fn law_lookup_decides(
    found: Option<Seq<u8>>,
    calls: Seq<PullCall>,
    now: DecrypterView,
    ciphertext: Seq<u8>,
    result: Result<Seq<u8>, SaltlickError>,
    after: DecrypterView,
)
    requires
        reads(KeySource::Deferred, found, calls, now),
        decrypter::pulled(now, ciphertext, found, result, after),
        ciphertext_of(calls).len() < PREHEADER_LEN + PUBLICKEYBYTES,
        (ciphertext_of(calls) + ciphertext).len() >= PREHEADER_LEN + PUBLICKEYBYTES,
        (ciphertext_of(calls) + ciphertext).take(PREHEADER_LEN as int) == wire::preheader(
            Version::V1,
        ),
    ensures
        decrypter::asked(now.phase, now.buffered + ciphertext) == Some(
            (ciphertext_of(calls) + ciphertext).subrange(
                PREHEADER_LEN as int,
                PREHEADER_LEN + PUBLICKEYBYTES,
            ),
        ),
        result == Err::<Seq<u8>, SaltlickError>(SaltlickError::SecretKeyNotFound)
            <==> found is None,
        forall|i: int|
            #![trigger calls[i]]
            0 <= i < calls.len() ==> decrypter::asked(
                calls[i].before.phase,
                calls[i].before.buffered + calls[i].ciphertext,
            ) is None,
        forall|input: Seq<u8>| #[trigger] decrypter::asked(after.phase, input) is None,
{
    law_lookup_asked_for_stream_key(KeySource::Deferred, found, calls, now, ciphertext);
    law_secret_key_not_found(now, ciphertext, found, result, after);
    law_lookup_asked_once(now, ciphertext, found, found, result, after);
    lemma_not_asked_before_key(found, calls, now);
}

/// As long as the public key is not complete the lookup is not asked.
proof fn lemma_not_asked_before_key(
    found: Option<Seq<u8>>,
    calls: Seq<PullCall>,
    now: DecrypterView,
)
    requires
        reads(KeySource::Deferred, found, calls, now),
        ciphertext_of(calls).len() < PREHEADER_LEN + PUBLICKEYBYTES,
    ensures
        forall|i: int|
            #![trigger calls[i]]
            0 <= i < calls.len() ==> decrypter::asked(
                calls[i].before.phase,
                calls[i].before.buffered + calls[i].ciphertext,
            ) is None,
    decreases calls.len(),
{
    if calls.len() > 0 {
        let call = calls.last();
        let earlier = calls.drop_last();
        lemma_not_asked_before_key(found, earlier, call.before);
        law_lookup_asked_for_stream_key(
            KeySource::Deferred,
            found,
            earlier,
            call.before,
            call.ciphertext,
        );
        assert forall|i: int| #![trigger calls[i]] 0 <= i < calls.len() implies decrypter::asked(
            calls[i].before.phase,
            calls[i].before.buffered + calls[i].ciphertext,
        ) is None by {
            if i < earlier.len() {
                assert(earlier[i] == calls[i]);
            }
        }
    }
}

/// A push succeeds unless the stream has ended, and it ends the stream exactly
/// when it is to finalize it. Less than a block is then pending, and nothing where
/// the stream has ended. Keys and block size stay as they are.
pub proof fn law_push(
    before: EncrypterView,
    plaintext: Seq<u8>,
    finalize: bool,
    result: Result<Seq<u8>, SaltlickError>,
    after: EncrypterView,
)
    requires
        MIN_BLOCK_SIZE <= before.block_size <= MAX_BLOCK_SIZE,
        !(before.phase is Finalized),
        encrypter::pushed(before, plaintext, finalize, result, after),
    ensures
        result is Ok,
        after.phase is Finalized <==> finalize,
        !(after.phase is Start || after.phase is Failed),
        after.pending.len() < after.block_size,
        finalize ==> after.pending.len() == 0,
        after.public_key == before.public_key,
        after.block_size == before.block_size,
{
    law_cut(before.pending + plaintext, before.block_size, finalize);
}

/// Reading stops only where nothing more can be read, or at an error, after which
/// the decrypter has failed.
proof fn lemma_run_reads_all(phase: DecrypterPhase, input: Seq<u8>, found: Option<Seq<u8>>)
    requires
        !(phase is Failed),
    ensures
        ({
            let outcome = decrypter::run(phase, input, found);
            &&& outcome.result is Err <==> outcome.after.phase is Failed
            &&& outcome.result != Err::<Seq<u8>, SaltlickError>(SaltlickError::Finalized)
            &&& outcome.result is Ok ==> decrypter::progress(
                outcome.after.phase,
                outcome.after.buffered,
                found,
            ) is Wait
        }),
    decreases input.len(),
{
    lemma_progress_more(phase, input, Seq::empty(), found);
    if let Progress::Advance { taken, phase: next, .. } = decrypter::progress(
        phase,
        input,
        found,
    ) {
        lemma_run_reads_all(next, input.skip(taken as int), found);
    }
}

/// A pull reads every part of the stream that is complete: only bytes of a part
/// that is not stay buffered. A decrypter has failed exactly when a pull, other
/// than one after the end of the stream, returned an error; and that error never
/// is the one that tells the end of the stream.
pub proof fn law_pull(
    before: DecrypterView,
    ciphertext: Seq<u8>,
    found: Option<Seq<u8>>,
    result: Result<Seq<u8>, SaltlickError>,
    after: DecrypterView,
)
    requires
        !(before.phase is Finalized),
        decrypter::pulled(before, ciphertext, found, result, after),
    ensures
        result is Ok ==> decrypter::progress(after.phase, after.buffered, found) is Wait,
        result is Err <==> after.phase is Failed,
        result != Err::<Seq<u8>, SaltlickError>(SaltlickError::Finalized),
{
    lemma_run_reads_all(before.phase, before.buffered + ciphertext, found);
}

/// A push is refused exactly when the stream has ended, whatever it is given; any
/// other push succeeds. No push reopens a stream.
pub proof fn law_push_after_end_refused(
    before: EncrypterView,
    plaintext: Seq<u8>,
    finalize: bool,
    result: Result<Seq<u8>, SaltlickError>,
    after: EncrypterView,
)
    requires
        encrypter::pushed(before, plaintext, finalize, result, after),
    ensures
        result == Err::<Seq<u8>, SaltlickError>(SaltlickError::Finalized)
            <==> before.phase is Finalized,
        result is Ok <==> !(before.phase is Finalized),
        before.phase is Finalized ==> after == (EncrypterView {
            block_size: before.block_size,
            pending: before.pending + plaintext,
            public_key: before.public_key,
            phase: EncrypterPhase::Finalized,
        }),
{
}

/// A pull is refused as coming after the end of the stream exactly when it does,
/// whatever it is given. No pull reopens a stream.
pub proof fn law_pull_after_end_refused(
    before: DecrypterView,
    ciphertext: Seq<u8>,
    found: Option<Seq<u8>>,
    result: Result<Seq<u8>, SaltlickError>,
    after: DecrypterView,
)
    requires
        decrypter::pulled(before, ciphertext, found, result, after),
    ensures
        result == Err::<Seq<u8>, SaltlickError>(SaltlickError::Finalized)
            <==> before.phase is Finalized,
        before.phase is Finalized ==> after == (DecrypterView {
            buffered: before.buffered + ciphertext,
            phase: DecrypterPhase::Finalized,
        }),
{
    if !(before.phase is Finalized) {
        law_pull(before, ciphertext, found, result, after);
    }
}

/// After an error, other than the one that tells the end of the stream, the
/// decrypter is not finalized, and no further call gives anything.
pub proof fn law_nothing_after_failure(
    before: DecrypterView,
    ciphertext: Seq<u8>,
    found: Option<Seq<u8>>,
    error: SaltlickError,
    after: DecrypterView,
)
    requires
        decrypter::pulled(before, ciphertext, found, Err(error), after),
        error != SaltlickError::Finalized,
    ensures
        after.phase is Failed,
        forall|
            more: Seq<u8>,
            answer: Option<Seq<u8>>,
            result: Result<Seq<u8>, SaltlickError>,
            last: DecrypterView,
        |
            !#[trigger] decrypter::pulled(after, more, answer, result, last),
{
    law_pull_after_end_refused(before, ciphertext, found, Err(error), after);
    law_pull(before, ciphertext, found, Err(error), after);
}

/// What is cut of the plaintext does not depend on the pieces that it comes in.
proof fn lemma_cut_append(data: Seq<u8>, more: Seq<u8>, block_size: nat, finalize: bool)
    requires
        0 < block_size,
    ensures
        ({
            let held_back = wire::held_back(data, block_size, false);
            &&& wire::cut(data + more, block_size, finalize) == wire::cut(data, block_size, false)
                + wire::cut(held_back + more, block_size, finalize)
            &&& wire::held_back(data + more, block_size, finalize) == wire::held_back(
                held_back + more,
                block_size,
                finalize,
            )
        }),
    decreases data.len(),
{
    let held_back = wire::held_back(data, block_size, false);
    let rest = wire::cut(held_back + more, block_size, finalize);
    if block_size <= data.len() {
        let left = data.skip(block_size as int);
        let first = seq![Block { data: data.take(block_size as int), last: false }];
        lemma_cut_append(left, more, block_size, finalize);
        assert((data + more).take(block_size as int) =~= data.take(block_size as int));
        assert((data + more).skip(block_size as int) =~= left + more);
        assert(first + (wire::cut(left, block_size, false) + rest) =~= (first + wire::cut(
            left,
            block_size,
            false,
        )) + rest);
    } else {
        assert(Seq::<Block>::empty() + rest =~= rest);
    }
}

/// It makes no difference in what pieces plaintext is pushed: two calls together
/// come to the same as one call with the plaintext of both.
pub proof fn law_push_in_pieces(
    before: EncrypterView,
    first: Seq<u8>,
    first_output: Seq<u8>,
    between: EncrypterView,
    second: Seq<u8>,
    finalize: bool,
    second_output: Seq<u8>,
    after: EncrypterView,
)
    requires
        MIN_BLOCK_SIZE <= before.block_size <= MAX_BLOCK_SIZE,
        encrypter::pushed(before, first, false, Ok(first_output), between),
        encrypter::pushed(between, second, finalize, Ok(second_output), after),
    ensures
        encrypter::pushed(
            before,
            first + second,
            finalize,
            Ok(first_output + second_output),
            after,
        ),
{
    let size = before.block_size;
    let data = before.pending + first;
    let blocks = wire::cut(data, size, false);
    let held_back = wire::held_back(data, size, false);
    let more = wire::cut(held_back + second, size, finalize);
    lemma_cut_append(data, second, size, finalize);
    assert(before.pending + (first + second) =~= data + second);
    let (lead, state): (Seq<u8>, Seq<u8>) = match before.phase {
        EncrypterPhase::Streaming { state } => (Seq::empty(), state),
        _ => choose|preamble: Seq<u8>, state: Seq<u8>|
            {
                &&& #[trigger] encrypter::is_started(preamble, before.public_key, state)
                &&& encrypter::streamed(
                    before,
                    preamble,
                    state,
                    data,
                    false,
                    Ok(first_output),
                    between,
                )
            },
    };
    let next = wire::frames_state(state, blocks);
    wire::lemma_frames_append(state, blocks, more);
    assert(first_output + second_output =~= lead + wire::frames(state, blocks + more));
    assert(encrypter::streamed(
        before,
        lead,
        state,
        data + second,
        finalize,
        Ok(first_output + second_output),
        after,
    ));
}

/// How many bytes the frames of some blocks have: each frame has the bytes of its
/// block, the four bytes of its length, and what encryption adds to the two.
pub proof fn law_frames_length(state: Seq<u8>, blocks: Seq<Block>)
    requires
        wire::frames_open(state, blocks),
    ensures
        wire::frames(state, blocks).len() == wire::plain(blocks).len() + blocks.len() * (
        MESSAGE_LEN_LEN + ABYTES),
    decreases blocks.len(),
{
    if blocks.len() > 0 {
        law_frames_length(wire::frame_state(state, blocks[0]), blocks.skip(1));
        assert(blocks.len() * (MESSAGE_LEN_LEN + ABYTES) == (MESSAGE_LEN_LEN + ABYTES) + (
        blocks.len() - 1) * (MESSAGE_LEN_LEN + ABYTES)) by (nonlinear_arith);
    }
}

/// Whether all calls were made with the same block size.
pub open spec fn keeps_block_size(calls: Seq<PushCall>, block_size: nat) -> bool {
    forall|i: int| 0 <= i < calls.len() ==> (#[trigger] calls[i]).before.block_size == block_size
}

/// As long as the block size stays the same, all calls together come to the same
/// as one call with all plaintext.
pub proof fn law_pushes_come_to_one(
    public_key: Seq<u8>,
    calls: Seq<PushCall>,
    now: EncrypterView,
    block_size: nat,
)
    requires
        writes(public_key, calls, now),
        calls.len() > 0,
        keeps_block_size(calls, block_size),
    ensures
        encrypter::pushed(
            EncrypterView {
                block_size,
                pending: Seq::empty(),
                public_key,
                phase: EncrypterPhase::Start,
            },
            plaintext_of(calls),
            calls.last().finalize,
            Ok(stream_of(calls)),
            calls.last().after,
        ),
    decreases calls.len(),
{
    let start = EncrypterView {
        block_size,
        pending: Seq::<u8>::empty(),
        public_key,
        phase: EncrypterPhase::Start,
    };
    let call = calls.last();
    let earlier = calls.drop_last();
    assert(writes(public_key, earlier, call.before));
    assert(calls[calls.len() - 1].before.block_size == block_size);
    if earlier.len() == 0 {
        assert(call.before == start);
        assert(plaintext_of(earlier) + call.plaintext =~= call.plaintext);
        assert(stream_of(earlier) + call.output =~= call.output);
    } else {
        let previous = earlier.last();
        assert forall|i: int| 0 <= i < earlier.len() implies (
        #[trigger] earlier[i]).before.block_size == block_size by {
            assert(earlier[i] == calls[i]);
        }
        assert(writes(public_key, earlier.drop_last(), previous.before));
        law_pushes_come_to_one(public_key, earlier, call.before, block_size);
        assert(earlier[earlier.len() - 1].before.block_size == block_size);
        law_push(
            previous.before,
            previous.plaintext,
            previous.finalize,
            Ok(previous.output),
            previous.after,
        );
        assert(previous.after == call.before);
        law_push_in_pieces(
            start,
            plaintext_of(earlier),
            stream_of(earlier),
            call.before,
            call.plaintext,
            call.finalize,
            call.output,
            call.after,
        );
    }
}

/// How many blocks are cut of the plaintext: as many full ones as it has, and one
/// more at the end of the stream. What is held back is what full blocks leave.
pub proof fn law_cut_count(data: Seq<u8>, block_size: nat, finalize: bool)
    requires
        0 < block_size,
    ensures
        wire::cut(data, block_size, finalize).len() == data.len() / block_size + if finalize {
            1nat
        } else {
            0
        },
        wire::held_back(data, block_size, finalize).len() == if finalize {
            0
        } else {
            data.len() % block_size
        },
    decreases data.len(),
{
    if block_size <= data.len() {
        let left = data.skip(block_size as int);
        law_cut_count(left, block_size, finalize);
        div_mod::lemma_div_plus_one(left.len() as int, block_size as int);
        div_mod::lemma_mod_add_multiples_vanish(left.len() as int, block_size as int);
    } else {
        div_mod::lemma_basic_div(data.len() as int, block_size as int);
        div_mod::lemma_small_mod(data.len(), block_size);
    }
}

/// How long a stream is depends on the number of bytes that were pushed and on the
/// block size, where it stays the same, and on nothing else. Every full block has
/// been written, and less than a block is pending; finalizing the stream writes one
/// block more, with what full blocks leave.
pub proof fn law_stream_length(
    public_key: Seq<u8>,
    calls: Seq<PushCall>,
    now: EncrypterView,
    block_size: nat,
)
    requires
        writes(public_key, calls, now),
        calls.len() > 0,
        keeps_block_size(calls, block_size),
    ensures
        ({
            let n = plaintext_of(calls).len();
            &&& now.phase is Finalized ==> {
                &&& stream_of(calls).len() == wire::preamble_len() + n + (MESSAGE_LEN_LEN + ABYTES)
                    * (n / block_size + 1)
                &&& now.pending.len() == 0
            }
            &&& !(now.phase is Finalized) ==> {
                &&& stream_of(calls).len() == wire::preamble_len() + (n / block_size) * (block_size
                    + MESSAGE_LEN_LEN + ABYTES)
                &&& now.pending.len() == n % block_size
            }
        }),
{
    let data = plaintext_of(calls);
    let n = data.len();
    let finalize = calls.last().finalize;
    let overhead = MESSAGE_LEN_LEN + ABYTES;
    let (preamble, state) = lemma_writes_cut(public_key, calls, now, block_size);
    let blocks = wire::cut(data, block_size, finalize);
    law_cut(data, block_size, finalize);
    law_cut_count(data, block_size, finalize);
    law_frames_length(state, blocks);
    assert(n == wire::plain(blocks).len() + wire::held_back(data, block_size, finalize).len());
    let q = n / block_size;
    div_mod::lemma_fundamental_div_mod(n as int, block_size as int);
    if finalize {
        assert((q + 1) * overhead == overhead * (q + 1)) by (nonlinear_arith);
    } else {
        assert(block_size * q + q * overhead == q * (block_size + overhead)) by (nonlinear_arith);
    }
}

/// As long as the block size stays the same, the blocks of the stream are those
/// that all plaintext together is cut into.
proof fn lemma_writes_cut(
    public_key: Seq<u8>,
    calls: Seq<PushCall>,
    now: EncrypterView,
    block_size: nat,
) -> (started: (Seq<u8>, Seq<u8>))
    requires
        writes(public_key, calls, now),
        calls.len() > 0,
        keeps_block_size(calls, block_size),
    ensures
        is_stream_of(
            stream_of(calls),
            public_key,
            started.0,
            started.1,
            wire::cut(plaintext_of(calls), block_size, calls.last().finalize),
        ),
        now.phase is Finalized == calls.last().finalize,
        now.pending == wire::held_back(plaintext_of(calls), block_size, calls.last().finalize),
        MIN_BLOCK_SIZE <= block_size <= MAX_BLOCK_SIZE,
        started.0.len() == wire::preamble_len(),
{
    let start = EncrypterView {
        block_size,
        pending: Seq::<u8>::empty(),
        public_key,
        phase: EncrypterPhase::Start,
    };
    let call = calls.last();
    assert(calls[calls.len() - 1].before.block_size == block_size);
    assert(writes(public_key, calls.drop_last(), call.before));
    law_pushes_come_to_one(public_key, calls, now, block_size);
    assert(start.pending + plaintext_of(calls) =~= plaintext_of(calls));
    choose|preamble: Seq<u8>, state: Seq<u8>|
        {
            &&& #[trigger] encrypter::is_started(preamble, public_key, state)
            &&& encrypter::streamed(
                start,
                preamble,
                state,
                plaintext_of(calls),
                call.finalize,
                Ok(stream_of(calls)),
                call.after,
            )
        }
}

/// Reading a part of the frames of a cut plaintext gives the blocks whose frames
/// are complete.
proof fn lemma_run_part(
    state: Seq<u8>,
    data: Seq<u8>,
    block_size: nat,
    finalize: bool,
    part: Seq<u8>,
    found: Option<Seq<u8>>,
)
    requires
        MIN_BLOCK_SIZE <= block_size <= MAX_BLOCK_SIZE,
        wire::frames_open(state, wire::cut(data, block_size, finalize)),
        part.is_prefix_of(wire::frames(state, wire::cut(data, block_size, finalize))),
        finalize ==> part.len() < wire::frames(
            state,
            wire::cut(data, block_size, finalize),
        ).len(),
    ensures
        ({
            let complete = part.len() / (block_size + MESSAGE_LEN_LEN + ABYTES) as nat;
            &&& complete * block_size <= data.len()
            &&& decrypter::run(DecrypterPhase::Length { state }, part, found).result == Ok::<
                Seq<u8>,
                SaltlickError,
            >(data.take((complete * block_size) as int))
        }),
    decreases data.len(),
{
    let blocks = wire::cut(data, block_size, finalize);
    let size = (block_size + MESSAGE_LEN_LEN + ABYTES) as nat;
    let complete = part.len() / size;
    if blocks.len() == 0 {
        div_mod::lemma_basic_div(0, size as int);
        assert(data.take(0) =~= Seq::empty());
    } else {
        let block = blocks[0];
        let rest = blocks.skip(1);
        let next = wire::frame_state(state, block);
        let frame = wire::frame(state, block);
        let frames = wire::frames(next, rest);
        law_cut(data, block_size, finalize);
        law_frame_round_trip(state, block, frames);
        assert(part =~= (frame + frames).subrange(0, part.len() as int));
        if part.len() < frame.len() {
            div_mod::lemma_basic_div(part.len() as int, size as int);
            assert(data.take(0) =~= Seq::empty());
            assert(0 * block_size == 0);
            assert(part =~= frame.subrange(0, part.len() as int));
            lemma_run_frame_part(state, block, part, found);
        } else {
            assert(block_size <= data.len()) by {
                if data.len() < block_size {
                    assert(rest =~= Seq::empty());
                    assert(frames =~= Seq::empty());
                }
            }
            let left = data.skip(block_size as int);
            let after = part.skip(size as int);
            let fewer = after.len() / size;
            assert(rest =~= wire::cut(left, block_size, finalize));
            assert(part =~= frame + after);
            assert(after =~= frames.subrange(0, after.len() as int));
            lemma_run_frame(state, block, after, found);
            lemma_run_part(next, left, block_size, finalize, after, found);
            div_mod::lemma_div_plus_one(after.len() as int, size as int);
            assert((fewer + 1) * block_size == fewer * block_size + block_size) by (
            nonlinear_arith);
            assert(block.data + left.take((fewer * block_size) as int) =~= data.take(
                (complete * block_size) as int,
            ));
        }
    }
}

/// What comes out of a part of a stream: every block that has arrived completely,
/// and nothing of the next one. Where the stream was written with one block size,
/// this is told by the number of bytes that were pulled. The decrypter is not
/// finalized.
pub proof fn law_pull_part(
    public_key: Seq<u8>,
    secret_key: Seq<u8>,
    pushes: Seq<PushCall>,
    encrypter: EncrypterView,
    block_size: nat,
    source: KeySource,
    found: Option<Seq<u8>>,
    calls: Seq<PullCall>,
    now: DecrypterView,
    ciphertext: Seq<u8>,
    result: Result<Seq<u8>, SaltlickError>,
    after: DecrypterView,
)
    requires
        writes(public_key, pushes, encrypter),
        pushes.len() > 0,
        keeps_block_size(pushes, block_size),
        opens_with(source, found, public_key, secret_key),
        reads(source, found, calls, now),
        decrypter::pulled(now, ciphertext, found, result, after),
        (ciphertext_of(calls) + ciphertext).is_prefix_of(stream_of(pushes)),
        encrypter.phase is Finalized ==> (ciphertext_of(calls) + ciphertext).len() < stream_of(
            pushes,
        ).len(),
    ensures
        ({
            let pulled = (ciphertext_of(calls) + ciphertext).len();
            let complete = if pulled < wire::preamble_len() {
                0
            } else {
                (pulled - wire::preamble_len()) / (block_size + MESSAGE_LEN_LEN + ABYTES)
            };
            &&& result is Ok
            &&& output_of(calls) + result->Ok_0 == plaintext_of(pushes).take(complete * block_size)
            &&& complete * block_size <= plaintext_of(pushes).len()
            &&& !(after.phase is Finalized)
        }),
{
    let stream = stream_of(pushes);
    let data = plaintext_of(pushes);
    let finalize = pushes.last().finalize;
    let earlier = ciphertext_of(calls);
    let pulled = earlier + ciphertext;
    let start = DecrypterPhase::Preheader { source };
    let ended = encrypter.phase is Finalized;
    let written = written_of(pushes, encrypter);
    law_pushes_write_stream(public_key, pushes, encrypter);
    assert(earlier =~= stream.subrange(0, earlier.len() as int)) by {
        assert(earlier =~= (earlier + ciphertext).subrange(0, earlier.len() as int));
    }
    lemma_open_before_end(
        stream,
        public_key,
        secret_key,
        written,
        ended,
        source,
        found,
        calls,
        now,
    );
    law_pull_stream(
        stream,
        public_key,
        secret_key,
        written,
        ended,
        source,
        found,
        calls,
        now,
        ciphertext,
        result,
        after,
    );
    assert(Seq::<u8>::empty() + pulled =~= pulled);
    law_pull_in_pieces(source, found, calls, now, ciphertext, result, after);
    let (preamble, state) = lemma_writes_cut(public_key, pushes, encrypter, block_size);
    let blocks = wire::cut(data, block_size, finalize);
    let output = output_of(calls) + result->Ok_0;

    // The preamble alone gives nothing, and leads to the first frame.
    let none = Seq::<Block>::empty();
    assert(preamble + wire::frames(state, none) =~= preamble);
    lemma_run_stream(preamble, public_key, secret_key, preamble, state, none, source, found);
    lemma_run_frames(state, none, false, found);
    if pulled.len() < preamble.len() {
        let more = preamble.skip(pulled.len() as int);
        assert(pulled + more =~= preamble) by {
            assert(pulled =~= stream.subrange(0, pulled.len() as int));
            assert(pulled =~= preamble.subrange(0, pulled.len() as int));
        }
        lemma_run_more(start, pulled, more, found);
        assert(output =~= Seq::empty());
        assert(0 * block_size == 0);
        assert(data.take(0) =~= Seq::empty());
    } else {
        let part = pulled.skip(preamble.len() as int);
        let frames = wire::frames(state, blocks);
        assert(pulled =~= stream.subrange(0, pulled.len() as int));
        assert(preamble + part =~= pulled);
        assert(part =~= frames.subrange(0, part.len() as int));
        lemma_run_more(start, preamble, part, found);
        assert(Seq::<u8>::empty() + part =~= part);
        decrypter::lemma_behind_nothing(
            decrypter::run(DecrypterPhase::Length { state }, part, found),
        );
        lemma_run_part(state, data, block_size, finalize, part, found);
    }
}

/// The magic bytes and the version read back as they were written.
pub proof fn law_preheader_round_trip(version: Version, more: Seq<u8>)
    ensures
        read::preheader_read(wire::preheader(version) + more) == Ok::<
            ReadStatus<Version>,
            SaltlickError,
        >(ReadStatus::Complete(Version::of_byte(version.byte()), PREHEADER_LEN)),
{
    let input = wire::preheader(version) + more;
    assert(input.take(MAGIC_LEN as int) =~= MAGIC@);
}

} // verus!
