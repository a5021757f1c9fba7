//! The encrypter: plaintext is pushed in, the bytes of a stream come out.

use bytes::BytesMut;
use vstd::prelude::*;
use vstd::string::StringExecFns;

use crate::bytebuf;
use crate::crypter::{DEFAULT_BLOCK_SIZE, MAX_BLOCK_SIZE, MIN_BLOCK_SIZE};
use crate::error::{self, SaltlickError};
use crate::key::PublicKey;
use crate::multibuf::{self, MultiBuf};
use crate::netorder;
use crate::sodium::{self, PushStream, Tag};
use crate::wire::{self, Block};

verus! {

/// What an encrypter does next.
enum EncrypterState {
    Start,
    NextBlock(PushStream),
    WriteBlock(PushStream),
    Finalize(PushStream),
    Finalized,
    Error(SaltlickError),
    Vacant,
}

impl EncrypterState {
    /// The text that a state is shown as.
    spec fn text(self) -> Seq<char> {
        match self {
            EncrypterState::Start => "EncrypterState::Start"@,
            EncrypterState::NextBlock(_) => "EncrypterState::NextBlock"@,
            EncrypterState::WriteBlock(_) => "EncrypterState::WritBlock"@,
            EncrypterState::Finalize(_) => "EncrypterState::Finalize"@,
            EncrypterState::Finalized => "EncrypterState::Finalized"@,
            EncrypterState::Error(e) => "EncrypterState::Error("@ + e.label() + ")"@,
            EncrypterState::Vacant => "EncrypterState::None"@,
        }
    }

    /// The text that this state is shown as.
    fn describe(&self) -> (text: String)
        ensures
            text@ == self.text(),
            text@ == (match self {
                EncrypterState::Start => "EncrypterState::Start"@,
                EncrypterState::NextBlock(_) => "EncrypterState::NextBlock"@,
                EncrypterState::WriteBlock(_) => "EncrypterState::WritBlock"@,
                EncrypterState::Finalize(_) => "EncrypterState::Finalize"@,
                EncrypterState::Finalized => "EncrypterState::Finalized"@,
                EncrypterState::Error(e) => "EncrypterState::Error("@ + e.label() + ")"@,
                EncrypterState::Vacant => "EncrypterState::None"@,
            }),
    {
        match self {
            EncrypterState::Start => String::from_str("EncrypterState::Start"),
            EncrypterState::NextBlock(_) => String::from_str("EncrypterState::NextBlock"),
            EncrypterState::WriteBlock(_) => String::from_str("EncrypterState::WritBlock"),
            EncrypterState::Finalize(_) => String::from_str("EncrypterState::Finalize"),
            EncrypterState::Finalized => String::from_str("EncrypterState::Finalized"),
            EncrypterState::Error(e) => {
                let mut text = String::from_str("EncrypterState::Error(");
                text.append(e.name());
                text.append(")");
                text
            },
            EncrypterState::Vacant => String::from_str("EncrypterState::None"),
        }
    }
}

/// The text of a state tells its variant, and of an error state the error: states
/// of different variants have different texts. It tells nothing else.
proof fn law_text_tells_state(left: EncrypterState, right: EncrypterState)
    ensures
        left.text() == right.text() ==> {
            &&& left is Start <==> right is Start
            &&& left is NextBlock <==> right is NextBlock
            &&& left is WriteBlock <==> right is WriteBlock
            &&& left is Finalize <==> right is Finalize
            &&& left is Finalized <==> right is Finalized
            &&& left is Error <==> right is Error
            &&& left is Vacant <==> right is Vacant
            &&& left is Error ==> left->Error_0 == right->Error_0
        },
        left is Error && right is Error && left->Error_0 == right->Error_0 ==> left.text()
            == right.text(),
        left is Start && right is Start ==> left.text() == right.text(),
        left is NextBlock && right is NextBlock ==> left.text() == right.text(),
        left is WriteBlock && right is WriteBlock ==> left.text() == right.text(),
        left is Finalize && right is Finalize ==> left.text() == right.text(),
        left is Finalized && right is Finalized ==> left.text() == right.text(),
        left is Vacant && right is Vacant ==> left.text() == right.text(),
{
    reveal_strlit("EncrypterState::Start");
    reveal_strlit("EncrypterState::NextBlock");
    reveal_strlit("EncrypterState::WritBlock");
    reveal_strlit("EncrypterState::Finalize");
    reveal_strlit("EncrypterState::Finalized");
    reveal_strlit("EncrypterState::Error(");
    reveal_strlit("EncrypterState::None");
    assert("EncrypterState::Start"@.len() == 21);
    assert("EncrypterState::Start"@[16] == 'S');
    assert("EncrypterState::NextBlock"@.len() == 25);
    assert("EncrypterState::NextBlock"@[16] == 'N');
    assert("EncrypterState::WritBlock"@.len() == 25);
    assert("EncrypterState::WritBlock"@[16] == 'W');
    assert("EncrypterState::Finalize"@.len() == 24);
    assert("EncrypterState::Finalize"@[16] == 'F');
    assert("EncrypterState::Finalized"@.len() == 25);
    assert("EncrypterState::Finalized"@[16] == 'F');
    assert("EncrypterState::Error("@.len() == 22);
    assert("EncrypterState::Error("@[16] == 'E');
    assert("EncrypterState::None"@.len() == 20);
    assert("EncrypterState::None"@[16] == 'N');
    if left.text() == right.text() && left is Error && right is Error {
        let start = "EncrypterState::Error("@.len() as int;
        let end = left.text().len() - ")"@.len();
        assert(left.text().subrange(start, end) =~= left->Error_0.label());
        assert(right.text().subrange(start, end) =~= right->Error_0.label());
        error::law_label_tells_error(left->Error_0, right->Error_0);
    }
}

/// How far an encrypter has come.
pub enum EncrypterPhase {
    /// Nothing has been written.
    Start,
    /// The preamble has been written; the next frame is written in this state.
    Streaming { state: Seq<u8> },
    /// The last frame has been written.
    Finalized,
    /// An error has been returned, after which nothing can be pushed.
    Failed,
}

impl EncrypterPhase {
    /// The text that an encrypter in this phase is shown as.
    pub open spec fn text(self) -> Seq<char> {
        match self {
            EncrypterPhase::Start => "EncrypterState::Start"@,
            EncrypterPhase::Streaming { .. } => "EncrypterState::NextBlock"@,
            EncrypterPhase::Finalized => "EncrypterState::Finalized"@,
            EncrypterPhase::Failed => "EncrypterState::None"@,
        }
    }
}

/// The text of an encrypter tells its phase: different phases have different
/// texts.
pub proof fn law_text_tells_phase(left: EncrypterPhase, right: EncrypterPhase)
    requires
        left.text() == right.text(),
    ensures
        left is Start <==> right is Start,
        left is Streaming <==> right is Streaming,
        left is Finalized <==> right is Finalized,
        left is Failed <==> right is Failed,
{
    reveal_strlit("EncrypterState::Start");
    reveal_strlit("EncrypterState::NextBlock");
    reveal_strlit("EncrypterState::Finalized");
    reveal_strlit("EncrypterState::None");
    assert("EncrypterState::Start"@.len() == 21);
    assert("EncrypterState::None"@.len() == 20);
    assert("EncrypterState::NextBlock"@.len() == 25 && "EncrypterState::NextBlock"@[16] == 'N');
    assert("EncrypterState::Finalized"@.len() == 25 && "EncrypterState::Finalized"@[16] == 'F');
}

/// An encrypter as its callers see it.
pub struct EncrypterView {
    /// The number of bytes of a full block.
    pub block_size: nat,
    /// The plaintext that has not been written yet.
    pub pending: Seq<u8>,
    /// The key that the stream is encrypted for.
    pub public_key: Seq<u8>,
    /// How far the stream has come.
    pub phase: EncrypterPhase,
}

/// The block size that is used where `block_size` is asked for.
pub open spec fn clamped(block_size: nat) -> nat {
    if block_size < MIN_BLOCK_SIZE {
        MIN_BLOCK_SIZE as nat
    } else if block_size > MAX_BLOCK_SIZE {
        MAX_BLOCK_SIZE as nat
    } else {
        block_size
    }
}

/// Low-level interface to encrypting data in the saltlick format.
pub struct Encrypter {
    block_size: usize,
    plaintext: BytesMut,
    public_key: PublicKey,
    state: EncrypterState,
}

impl EncrypterState {
    /// The phase that a state between two calls stands for.
    spec fn phase(self) -> EncrypterPhase {
        match self {
            EncrypterState::Start => EncrypterPhase::Start,
            EncrypterState::NextBlock(stream) => EncrypterPhase::Streaming {
                state: sodium::push_state(stream),
            },
            EncrypterState::Finalized => EncrypterPhase::Finalized,
            _ => EncrypterPhase::Failed,
        }
    }

    /// Whether a state can stand between two calls.
    spec fn at_rest(self) -> bool {
        match self {
            EncrypterState::Start => true,
            EncrypterState::NextBlock(stream) => !sodium::push_finalized(stream),
            EncrypterState::Finalized => true,
            EncrypterState::Vacant => true,
            _ => false,
        }
    }

    /// How many steps a state is away from the next one that waits or ends.
    spec fn rank(self) -> int {
        match self {
            EncrypterState::Start => 3,
            EncrypterState::NextBlock(_) => 2,
            EncrypterState::WriteBlock(_) => 1,
            EncrypterState::Finalize(_) => 1,
            _ => 0,
        }
    }
}

impl View for Encrypter {
    type V = EncrypterView;

    closed spec fn view(&self) -> EncrypterView {
        EncrypterView {
            block_size: self.block_size as nat,
            pending: bytebuf::contents(self.plaintext),
            public_key: self.public_key@,
            phase: self.state.phase(),
        }
    }
}

/// The block size that is used is the one among the allowed ones, from one kibibyte
/// to eight mebibytes, that is nearest to what was asked for: what was asked for
/// where that is allowed, the smallest where less was asked for, and the largest
/// where more was.
pub proof fn law_block_size_clamped(block_size: nat)
    ensures
        1024 <= clamped(block_size) <= 8388608,
        1024 <= block_size <= 8388608 ==> clamped(block_size) == block_size,
        block_size <= 1024 ==> clamped(block_size) == 1024,
        block_size >= 8388608 ==> clamped(block_size) == 8388608,
        MIN_BLOCK_SIZE == 1024,
        MAX_BLOCK_SIZE == 8388608,
{
}

/// Asking for a larger block size never gives a smaller one.
pub proof fn law_block_size_ordered(smaller: nat, larger: nat)
    requires
        smaller <= larger,
    ensures
        clamped(smaller) <= clamped(larger),
{
}

/// The block size of an encrypter is always one that is allowed.
pub proof fn law_block_size_allowed(encrypter: &Encrypter)
    requires
        encrypter.inv(),
    ensures
        MIN_BLOCK_SIZE <= encrypter@.block_size <= MAX_BLOCK_SIZE,
{
}

/// Whether `preamble` is a preamble of a stream for the owner of `public_key`,
/// whose first frame is written in `state`.
pub open spec fn is_started(preamble: Seq<u8>, public_key: Seq<u8>, state: Seq<u8>) -> bool {
    exists|key: Seq<u8>, header: Seq<u8>|
        {
            &&& #[trigger] wire::is_preamble(preamble, public_key, key, header)
            &&& state == sodium::initial_state(header, key)
        }
}

/// Whether `result` and `after` are what comes of writing `data` in frames from
/// `state` on, behind the bytes `lead`.
pub open spec fn streamed(
    before: EncrypterView,
    lead: Seq<u8>,
    state: Seq<u8>,
    data: Seq<u8>,
    finalize: bool,
    result: Result<Seq<u8>, SaltlickError>,
    after: EncrypterView,
) -> bool {
    let blocks = wire::cut(data, before.block_size, finalize);
    &&& wire::frames_open(state, blocks)
    &&& result == Ok::<Seq<u8>, SaltlickError>(lead + wire::frames(state, blocks))
    &&& after == EncrypterView {
        pending: wire::held_back(data, before.block_size, finalize),
        phase: if finalize {
            EncrypterPhase::Finalized
        } else {
            EncrypterPhase::Streaming { state: wire::frames_state(state, blocks) }
        },
        ..before
    }
}

/// Whether `result` and `after` are what comes of pushing `plaintext` into an
/// encrypter that looks like `before`.
///
/// The plaintext joins what is pending. A finalized encrypter refuses it. Any
/// other writes what is pending in full blocks and, where it is to finalize, in
/// a last block; the first push also writes a preamble, with a stream key and a
/// stream header that were drawn for it.
pub open spec fn pushed(
    before: EncrypterView,
    plaintext: Seq<u8>,
    finalize: bool,
    result: Result<Seq<u8>, SaltlickError>,
    after: EncrypterView,
) -> bool {
    let data = before.pending + plaintext;
    match before.phase {
        EncrypterPhase::Start => exists|preamble: Seq<u8>, state: Seq<u8>|
            {
                &&& #[trigger] is_started(preamble, before.public_key, state)
                &&& streamed(before, preamble, state, data, finalize, result, after)
            },
        EncrypterPhase::Streaming { state } => streamed(
            before,
            Seq::empty(),
            state,
            data,
            finalize,
            result,
            after,
        ),
        EncrypterPhase::Finalized => {
            &&& result == Err::<Seq<u8>, SaltlickError>(SaltlickError::Finalized)
            &&& after == EncrypterView { pending: data, ..before }
        },
        EncrypterPhase::Failed => false,
    }
}

impl Encrypter {
    /// What holds of an encrypter between two calls.
    pub closed spec fn inv(&self) -> bool {
        &&& MIN_BLOCK_SIZE <= self.block_size <= MAX_BLOCK_SIZE
        &&& self.state.at_rest()
    }

    /// Create a new encrypter using the provided public key.
    pub fn new(public_key: PublicKey) -> (encrypter: Encrypter)
        ensures
            encrypter.inv(),
            encrypter@ == (EncrypterView {
                block_size: DEFAULT_BLOCK_SIZE as nat,
                pending: Seq::empty(),
                public_key: public_key@,
                phase: EncrypterPhase::Start,
            }),
            encrypter@.block_size == 524288,
    {
        let mut encrypter = Encrypter {
            block_size: MIN_BLOCK_SIZE,
            plaintext: bytebuf::empty(),
            public_key,
            state: EncrypterState::Start,
        };
        encrypter.set_block_size(DEFAULT_BLOCK_SIZE);
        encrypter
    }

    /// Set block size for encrypter.
    pub fn set_block_size(&mut self, block_size: usize)
        requires
            old(self).inv(),
        ensures
            final(self).inv(),
            final(self)@ == (EncrypterView {
                block_size: clamped(block_size as nat),
                ..old(self)@
            }),
            block_size <= 1024 ==> final(self)@.block_size == 1024,
            1024 <= block_size <= 8388608 ==> final(self)@.block_size == block_size,
            block_size >= 8388608 ==> final(self)@.block_size == 8388608,
    {
        self.block_size = if block_size < MIN_BLOCK_SIZE {
            MIN_BLOCK_SIZE
        } else if block_size > MAX_BLOCK_SIZE {
            MAX_BLOCK_SIZE
        } else {
            block_size
        };
    }

    /// Push plaintext to the encrypter, receiving encrypted ciphertext in
    /// return.
    ///
    /// Nothing may be pushed after an error other than
    /// [`SaltlickError::Finalized`].
    pub fn push(&mut self, plaintext: &[u8], finalize: bool) -> (result: Result<
        MultiBuf,
        SaltlickError,
    >)
        requires
            old(self).inv(),
            !(old(self)@.phase is Failed),
            old(self)@.pending.len() + plaintext@.len() <= bytebuf::capacity_limit(),
        ensures
            final(self).inv(),
            pushed(old(self)@, plaintext@, finalize, multibuf::bytes_of(result), final(self)@),
    {
        let ghost before = self@;
        let ghost data = self@.pending + plaintext@;
        let ghost mut lead: Seq<u8> = Seq::empty();
        let ghost mut first: Seq<u8> = match self@.phase {
            EncrypterPhase::Streaming { state } => state,
            _ => Seq::empty(),
        };
        let ghost mut done: Seq<Block> = Seq::empty();
        let mut output = MultiBuf::new();
        bytebuf::append(&mut self.plaintext, plaintext);
        proof {
            assert(Seq::<Block>::empty() + wire::cut(data, before.block_size, finalize)
                =~= wire::cut(data, before.block_size, finalize));
        }
        loop
            invariant
                before == old(self)@,
                data == before.pending + plaintext@,
                MIN_BLOCK_SIZE <= self.block_size <= MAX_BLOCK_SIZE,
                self.block_size == before.block_size,
                self.public_key@ == before.public_key,
                match self.state {
                    EncrypterState::Start => {
                        &&& before.phase is Start
                        &&& bytebuf::contents(self.plaintext) == data
                        &&& output@ == Seq::<u8>::empty()
                        &&& done == Seq::<Block>::empty()
                    },
                    EncrypterState::NextBlock(stream) => self.is_writing(
                        stream, before, data, finalize, lead, first, done, output@,
                    ),
                    EncrypterState::WriteBlock(stream) => {
                        &&& self.is_writing(
                            stream, before, data, finalize, lead, first, done, output@,
                        )
                        &&& bytebuf::contents(self.plaintext).len() >= self.block_size
                    },
                    EncrypterState::Finalize(stream) => {
                        &&& self.is_writing(
                            stream, before, data, finalize, lead, first, done, output@,
                        )
                        &&& bytebuf::contents(self.plaintext).len() < self.block_size
                        &&& finalize
                    },
                    EncrypterState::Finalized => {
                        &&& before.phase is Finalized
                        &&& bytebuf::contents(self.plaintext) == data
                    },
                    _ => false,
                },
            decreases bytebuf::contents(self.plaintext).len(), self.state.rank(),
        {
            let mut state = EncrypterState::Vacant;
            std::mem::swap(&mut self.state, &mut state);
            let ghost pending = bytebuf::contents(self.plaintext);
            match state {
                EncrypterState::Start => {
                    let (stream, header) = match self.start() {
                        Ok(started) => started,
                        Err(e) => return Err(e),
                    };
                    proof {
                        lead = header@;
                        first = sodium::push_state(stream);
                    }
                    self.state = EncrypterState::NextBlock(stream);
                    output.push(header);
                    assert(output@ =~= lead + wire::frames(first, done));
                },
                EncrypterState::NextBlock(stream) => {
                    if bytebuf::length(&self.plaintext) >= self.block_size {
                        self.state = EncrypterState::WriteBlock(stream);
                    } else if finalize {
                        self.state = EncrypterState::Finalize(stream);
                    } else {
                        self.state = EncrypterState::NextBlock(stream);
                        assert(done + wire::cut(pending, before.block_size, finalize) =~= done);
                        return Ok(output);
                    }
                },
                EncrypterState::WriteBlock(stream) => {
                    let mut stream = stream;
                    match self.write_block(&mut stream, false) {
                        Ok(buf) => {
                            output.extend(buf);
                            self.state = EncrypterState::NextBlock(stream);
                            proof {
                                let size = before.block_size;
                                let block = Block { data: pending.take(size as int), last: false };
                                let rest = wire::cut(pending.skip(size as int), size, finalize);
                                wire::lemma_frames_push(first, done, block);
                                assert(done + (seq![block] + rest) =~= done.push(block) + rest);
                                assert(output@ =~= lead + wire::frames(first, done.push(block)));
                                done = done.push(block);
                            }
                        },
                        Err(e) => {
                            self.state = EncrypterState::Error(e);
                        },
                    }
                },
                EncrypterState::Finalize(stream) => {
                    let mut stream = stream;
                    match self.write_block(&mut stream, true) {
                        Ok(buf) => {
                            output.extend(buf);
                            self.state = EncrypterState::Finalized;
                            proof {
                                let block = Block { data: pending, last: true };
                                assert(pending.take(pending.len() as int) =~= pending);
                                assert(pending.skip(pending.len() as int) =~= Seq::empty());
                                wire::lemma_frames_push(first, done, block);
                                assert(done + seq![block] =~= done.push(block));
                                assert(output@ =~= lead + wire::frames(first, done.push(block)));
                            }
                            return Ok(output);
                        },
                        Err(e) => {
                            self.state = EncrypterState::Error(e);
                        },
                    }
                },
                EncrypterState::Finalized => {
                    self.state = EncrypterState::Finalized;
                    return Err(SaltlickError::Finalized);
                },
                EncrypterState::Error(e) => {
                    return Err(e);
                },
                EncrypterState::Vacant => {
                    return vstd::pervasive::unreached();
                },
            }
        }
    }

    /// What holds while frames are written: the blocks `done` have been written
    /// to `output`, from the state `first` on and behind the bytes `lead`; the
    /// rest of `data` is pending.
    spec fn is_writing(
        &self,
        stream: PushStream,
        before: EncrypterView,
        data: Seq<u8>,
        finalize: bool,
        lead: Seq<u8>,
        first: Seq<u8>,
        done: Seq<Block>,
        output: Seq<u8>,
    ) -> bool {
        let pending = bytebuf::contents(self.plaintext);
        let size = before.block_size;
        &&& match before.phase {
            EncrypterPhase::Start => is_started(lead, before.public_key, first),
            EncrypterPhase::Streaming { state } => lead == Seq::<u8>::empty() && first == state,
            _ => false,
        }
        &&& !sodium::push_finalized(stream)
        &&& sodium::push_state(stream) == wire::frames_state(first, done)
        &&& wire::frames_open(first, done)
        &&& output == lead + wire::frames(first, done)
        &&& wire::cut(data, size, finalize) == done + wire::cut(pending, size, finalize)
        &&& wire::held_back(data, size, finalize) == wire::held_back(pending, size, finalize)
    }

    /// Returns true if the crypter has been finalized.
    pub fn is_finalized(&self) -> (finalized: bool)
        ensures
            finalized == (self@.phase is Finalized),
    {
        match self.state {
            EncrypterState::Finalized => true,
            _ => false,
        }
    }

    /// Returns true if the crypter has not been finalized.
    pub fn is_not_finalized(&self) -> (not_finalized: bool)
        ensures
            not_finalized == !(self@.phase is Finalized),
    {
        !self.is_finalized()
    }

    /// The state of the crypter, as text.
    pub fn state_text(&self) -> (text: String)
        requires
            self.inv(),
        ensures
            text@ == self@.phase.text(),
            text@ == (match self@.phase {
                EncrypterPhase::Start => "EncrypterState::Start"@,
                EncrypterPhase::Streaming { .. } => "EncrypterState::NextBlock"@,
                EncrypterPhase::Finalized => "EncrypterState::Finalized"@,
                EncrypterPhase::Failed => "EncrypterState::None"@,
            }),
    {
        self.state.describe()
    }

    /// Starts a stream: a new stream key and stream header, and the preamble that
    /// carries them.
    fn start(&self) -> (started: Result<(PushStream, Vec<u8>), SaltlickError>)
        ensures
            started is Ok,
            started matches Ok((stream, preamble)) ==> !sodium::push_finalized(stream)
                && is_started(preamble@, self.public_key@, sodium::push_state(stream)),
    {
        let key = sodium::gen_stream_key();
        let (stream, header) = match sodium::open_push(&key) {
            Ok(started) => started,
            Err(()) => return Err(SaltlickError::StreamStartFailure),
        };
        let preamble = crate::crypter::write::header_v1(&key, &header, &self.public_key);
        assert(wire::is_preamble(
            preamble@,
            self.public_key@,
            sodium::stream_key_bytes(key),
            sodium::stream_header_bytes(header),
        ));
        Ok((stream, preamble))
    }

    /// Writes the next block: a full one, or all that is pending where that is
    /// less.
    fn write_block(&mut self, stream: &mut PushStream, finalize: bool) -> (frame: Result<
        MultiBuf,
        SaltlickError,
    >)
        requires
            MIN_BLOCK_SIZE <= old(self).block_size <= MAX_BLOCK_SIZE,
            !sodium::push_finalized(*old(stream)),
        ensures
            ({
                let pending = bytebuf::contents(old(self).plaintext);
                let size = if pending.len() < old(self).block_size {
                    pending.len()
                } else {
                    old(self).block_size as nat
                };
                let block = Block { data: pending.take(size as int), last: finalize };
                let state = sodium::push_state(*old(stream));
                &&& frame matches Ok(output)
                &&& output@ == wire::frame(state, block)
                &&& wire::frame_opens(state, block)
                &&& sodium::push_state(*final(stream)) == wire::frame_state(state, block)
                &&& sodium::push_finalized(*final(stream)) == finalize
                &&& bytebuf::contents(final(self).plaintext) == pending.skip(size as int)
            }),
            final(self).block_size == old(self).block_size,
            final(self).public_key == old(self).public_key,
            final(self).state == old(self).state,
    {
        let mut output = MultiBuf::new();
        let pending_len: usize = bytebuf::length(&self.plaintext);
        let size: usize = if pending_len < self.block_size {
            pending_len
        } else {
            self.block_size
        };
        let message = bytebuf::split_to(&mut self.plaintext, size);
        let message_bytes = bytebuf::as_slice(&message);
        let ghost block = Block { data: message_bytes@, last: finalize };
        let block_size_buf = netorder::encode_u32(message_bytes.len() as u32);
        match sodium::push_message(stream, block_size_buf.as_slice(), Tag::Message) {
            Ok(sealed) => output.push(sealed),
            Err(()) => return Err(SaltlickError::Finalized),
        }
        let tag = if finalize {
            Tag::Final
        } else {
            Tag::Message
        };
        match sodium::push_message(stream, message_bytes, tag) {
            Ok(sealed) => output.push(sealed),
            Err(()) => return Err(SaltlickError::Finalized),
        }
        Ok(output)
    }
}

} // verus!
