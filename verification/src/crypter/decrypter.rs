//! The decrypter: the bytes of a stream are pulled through it, plaintext comes
//! out.

use bytes::BytesMut;
use sodiumoxide::crypto::secretstream::{Header, Key};
use vstd::prelude::*;
use vstd::string::StringExecFns;

use crate::bytebuf;
use crate::crypter::read::{self, ReadStatus};
use crate::error::{self, SaltlickError};
use crate::key::{self, PublicKey, SecretKey};
use crate::multibuf::{self, MultiBuf};
use crate::sodium::{self, PullStream, ABYTES, KEYBYTES, PUBLICKEYBYTES, SECRETKEYBYTES};
use crate::version::Version;
use crate::wire::{MAGIC, MAGIC_LEN, MESSAGE_LEN_LEN, PREHEADER_LEN, SEALEDTEXT_LEN};

verus! {

/// A lookup of the secret key that belongs to a public key.
trait KeyLookupFn {
    /// Whether the lookup can be asked for this key.
    spec fn accepts(&self, public_key: PublicKey) -> bool;

    /// Whether the lookup may give this answer when asked for this key.
    spec fn may_answer(&self, public_key: PublicKey, answer: Option<SecretKey>) -> bool;

    /// Asks the lookup, once.
    fn call_box(self: Box<Self>, public_key: &PublicKey) -> (answer: Option<SecretKey>)
        requires
            self.accepts(*public_key),
        ensures
            self.may_answer(*public_key, answer),
    ;
}

impl<T> KeyLookupFn for T where T: FnOnce(&PublicKey) -> Option<SecretKey> {
    spec fn accepts(&self, public_key: PublicKey) -> bool {
        self.requires((&public_key,))
    }

    spec fn may_answer(&self, public_key: PublicKey, answer: Option<SecretKey>) -> bool {
        self.ensures((&public_key,), answer)
    }

    fn call_box(self: Box<Self>, public_key: &PublicKey) -> (answer: Option<SecretKey>) {
        (*self)(public_key)
    }
}

/// A lookup that has not been asked yet.
struct Lookup {
    lookup_fn: Box<dyn KeyLookupFn>,
}

impl Lookup {
    /// Whether the lookup can be asked for any key.
    spec fn accepts_all(self) -> bool {
        forall|public_key: PublicKey| #[trigger] self.lookup_fn.accepts(public_key)
    }

    /// Whether the lookup may give an answer with these bytes when asked for a key
    /// with those.
    spec fn may_find(self, public_key: Seq<u8>, found: Option<Seq<u8>>) -> bool {
        exists|key: PublicKey, answer: Option<SecretKey>|
            {
                &&& #[trigger] self.lookup_fn.may_answer(key, answer)
                &&& key@ == public_key
                &&& key::secret_bytes(answer) == found
            }
    }
}

/// Where the secret key comes from.
enum KeyResolution {
    Available(PublicKey, SecretKey),
    Deferred(Lookup),
}

/// What a decrypter does next.
enum DecrypterState {
    ReadPreheader(KeyResolution),
    ReadPublicKey(KeyResolution),
    SecretKeyLookup(PublicKey, Lookup),
    ReadHeader(PublicKey, PublicKey, SecretKey),
    OpenStream(Key, Header),
    ReadLength(PullStream),
    ReadBlock(PullStream, usize),
    FinalBlock,
    Finalized,
    Error(SaltlickError),
    Vacant,
}

impl KeyResolution {
    /// The text that this source of the secret key is shown as.
    fn describe(&self) -> (text: &'static str)
        ensures
            text@ == (match self {
                KeyResolution::Available(_, _) => "KeyResolution::Available"@,
                KeyResolution::Deferred(_) => "KeyResolution::Deferred"@,
            }),
    {
        match self {
            KeyResolution::Available(_, _) => "KeyResolution::Available",
            KeyResolution::Deferred(_) => "KeyResolution::Deferred",
        }
    }
}

impl DecrypterState {
    /// The text that a state is shown as.
    spec fn text(self) -> Seq<char> {
        match self {
            DecrypterState::ReadPreheader(_) => "DecrypterState::ReadPreheader"@,
            DecrypterState::ReadPublicKey(_) => "DecrypterState::ReadPublicKey"@,
            DecrypterState::SecretKeyLookup(_, _) => "DecrypterState::SecretKeyLookup"@,
            DecrypterState::ReadHeader(_, _, _) => "DecrypterState::ReadHeader"@,
            DecrypterState::OpenStream(_, _) => "DecrypterState::OpenStream"@,
            DecrypterState::ReadLength(_) => "DecrypterState::ReadLength"@,
            DecrypterState::ReadBlock(_, _) => "DecrypterState::ReadBlock"@,
            DecrypterState::FinalBlock => "DecrypterState::FinalBlock"@,
            DecrypterState::Finalized => "DecrypterState::Finalized"@,
            DecrypterState::Error(e) => "DecrypterState::Error("@ + e.label() + ")"@,
            DecrypterState::Vacant => "DecrypterState::None"@,
        }
    }

    /// The text that this state is shown as.
    fn describe(&self) -> (text: String)
        ensures
            text@ == self.text(),
            text@ == (match self {
                DecrypterState::ReadPreheader(_) => "DecrypterState::ReadPreheader"@,
                DecrypterState::ReadPublicKey(_) => "DecrypterState::ReadPublicKey"@,
                DecrypterState::SecretKeyLookup(_, _) => "DecrypterState::SecretKeyLookup"@,
                DecrypterState::ReadHeader(_, _, _) => "DecrypterState::ReadHeader"@,
                DecrypterState::OpenStream(_, _) => "DecrypterState::OpenStream"@,
                DecrypterState::ReadLength(_) => "DecrypterState::ReadLength"@,
                DecrypterState::ReadBlock(_, _) => "DecrypterState::ReadBlock"@,
                DecrypterState::FinalBlock => "DecrypterState::FinalBlock"@,
                DecrypterState::Finalized => "DecrypterState::Finalized"@,
                DecrypterState::Error(e) => "DecrypterState::Error("@ + e.label() + ")"@,
                DecrypterState::Vacant => "DecrypterState::None"@,
            }),
    {
        match self {
            DecrypterState::ReadPreheader(_) => String::from_str("DecrypterState::ReadPreheader"),
            DecrypterState::ReadPublicKey(_) => String::from_str("DecrypterState::ReadPublicKey"),
            DecrypterState::SecretKeyLookup(_, _) => String::from_str(
                "DecrypterState::SecretKeyLookup",
            ),
            DecrypterState::ReadHeader(_, _, _) => String::from_str("DecrypterState::ReadHeader"),
            DecrypterState::OpenStream(_, _) => String::from_str("DecrypterState::OpenStream"),
            DecrypterState::ReadLength(_) => String::from_str("DecrypterState::ReadLength"),
            DecrypterState::ReadBlock(_, _) => String::from_str("DecrypterState::ReadBlock"),
            DecrypterState::FinalBlock => String::from_str("DecrypterState::FinalBlock"),
            DecrypterState::Finalized => String::from_str("DecrypterState::Finalized"),
            DecrypterState::Error(e) => {
                let mut text = String::from_str("DecrypterState::Error(");
                text.append(e.name());
                text.append(")");
                text
            },
            DecrypterState::Vacant => String::from_str("DecrypterState::None"),
        }
    }
}

/// The text of a state tells its variant, and of an error state the error: states
/// of different variants have different texts. It tells nothing else.
proof fn law_text_tells_state(left: DecrypterState, right: DecrypterState)
    ensures
        left.text() == right.text() ==> {
            &&& left is ReadPreheader <==> right is ReadPreheader
            &&& left is ReadPublicKey <==> right is ReadPublicKey
            &&& left is SecretKeyLookup <==> right is SecretKeyLookup
            &&& left is ReadHeader <==> right is ReadHeader
            &&& left is OpenStream <==> right is OpenStream
            &&& left is ReadLength <==> right is ReadLength
            &&& left is ReadBlock <==> right is ReadBlock
            &&& left is FinalBlock <==> right is FinalBlock
            &&& left is Finalized <==> right is Finalized
            &&& left is Error <==> right is Error
            &&& left is Vacant <==> right is Vacant
            &&& left is Error ==> left->Error_0 == right->Error_0
        },
        left is Error && right is Error && left->Error_0 == right->Error_0 ==> left.text()
            == right.text(),
        left is ReadPreheader && right is ReadPreheader ==> left.text() == right.text(),
        left is ReadPublicKey && right is ReadPublicKey ==> left.text() == right.text(),
        left is SecretKeyLookup && right is SecretKeyLookup ==> left.text() == right.text(),
        left is ReadHeader && right is ReadHeader ==> left.text() == right.text(),
        left is OpenStream && right is OpenStream ==> left.text() == right.text(),
        left is ReadLength && right is ReadLength ==> left.text() == right.text(),
        left is ReadBlock && right is ReadBlock ==> left.text() == right.text(),
        left is FinalBlock && right is FinalBlock ==> left.text() == right.text(),
        left is Finalized && right is Finalized ==> left.text() == right.text(),
        left is Vacant && right is Vacant ==> left.text() == right.text(),
{
    reveal_strlit("DecrypterState::ReadPreheader");
    reveal_strlit("DecrypterState::ReadPublicKey");
    reveal_strlit("DecrypterState::SecretKeyLookup");
    reveal_strlit("DecrypterState::ReadHeader");
    reveal_strlit("DecrypterState::OpenStream");
    reveal_strlit("DecrypterState::ReadLength");
    reveal_strlit("DecrypterState::ReadBlock");
    reveal_strlit("DecrypterState::FinalBlock");
    reveal_strlit("DecrypterState::Finalized");
    reveal_strlit("DecrypterState::Error(");
    reveal_strlit("DecrypterState::None");
    assert("DecrypterState::ReadPreheader"@.len() == 29);
    assert("DecrypterState::ReadPreheader"@[16] == 'R');
    assert("DecrypterState::ReadPreheader"@[21] == 'r');
    assert("DecrypterState::ReadPublicKey"@.len() == 29);
    assert("DecrypterState::ReadPublicKey"@[16] == 'R');
    assert("DecrypterState::ReadPublicKey"@[21] == 'u');
    assert("DecrypterState::SecretKeyLookup"@.len() == 31);
    assert("DecrypterState::SecretKeyLookup"@[16] == 'S');
    assert("DecrypterState::ReadHeader"@.len() == 26);
    assert("DecrypterState::ReadHeader"@[16] == 'R');
    assert("DecrypterState::ReadHeader"@[20] == 'H');
    assert("DecrypterState::OpenStream"@.len() == 26);
    assert("DecrypterState::OpenStream"@[16] == 'O');
    assert("DecrypterState::ReadLength"@.len() == 26);
    assert("DecrypterState::ReadLength"@[16] == 'R');
    assert("DecrypterState::ReadLength"@[20] == 'L');
    assert("DecrypterState::ReadBlock"@.len() == 25);
    assert("DecrypterState::ReadBlock"@[16] == 'R');
    assert("DecrypterState::FinalBlock"@.len() == 26);
    assert("DecrypterState::FinalBlock"@[16] == 'F');
    assert("DecrypterState::Finalized"@.len() == 25);
    assert("DecrypterState::Finalized"@[16] == 'F');
    assert("DecrypterState::Error("@.len() == 22);
    assert("DecrypterState::Error("@[16] == 'E');
    assert("DecrypterState::None"@.len() == 20);
    assert("DecrypterState::None"@[16] == 'N');
    if left.text() == right.text() && left is Error && right is Error {
        let start = "DecrypterState::Error("@.len() as int;
        let end = left.text().len() - ")"@.len();
        assert(left.text().subrange(start, end) =~= left->Error_0.label());
        assert(right.text().subrange(start, end) =~= right->Error_0.label());
        error::law_label_tells_error(left->Error_0, right->Error_0);
    }
}

/// Where the secret key of a decrypter comes from.
pub enum KeySource {
    /// A key pair that was given beforehand.
    Available { public_key: Seq<u8>, secret_key: Seq<u8> },
    /// A lookup that is asked for the public key of the stream.
    Deferred,
}

/// How far a decrypter has come: the part of the stream that it waits for.
pub enum DecrypterPhase {
    /// The magic bytes and the version.
    Preheader { source: KeySource },
    /// The public key.
    PublicKey { source: KeySource },
    /// The box with the stream key and the stream header, which is opened with
    /// these keys.
    SealedText { public_key: Seq<u8>, secret_key: Seq<u8> },
    /// The length of a block, which is opened in this state.
    Length { state: Seq<u8> },
    /// A block of this length, which is opened in this state.
    Block { state: Seq<u8>, length: nat },
    /// Nothing: the last block has been read.
    Finalized,
    /// Nothing: an error has been returned, after which nothing can be pulled.
    Failed,
}

/// A decrypter as its callers see it.
pub struct DecrypterView {
    /// The bytes of the stream that have arrived and have not been read yet.
    pub buffered: Seq<u8>,
    /// How far the stream has been read.
    pub phase: DecrypterPhase,
}

/// What the bytes that have arrived allow to be done in a phase.
pub enum Progress {
    /// Nothing: too few have arrived.
    Wait,
    /// The awaited part is read off the first `taken` bytes; it gives `output`
    /// and leads to `phase`.
    Advance { taken: nat, output: Seq<u8>, phase: DecrypterPhase },
    /// The stream is refused; the first `taken` bytes have been read before.
    Refuse { taken: nat, error: SaltlickError },
}

/// What `input` allows to be done in `phase`. Where a lookup is asked, `found` is
/// its answer.
pub open spec fn progress(
    phase: DecrypterPhase,
    input: Seq<u8>,
    found: Option<Seq<u8>>,
) -> Progress {
    match phase {
        DecrypterPhase::Preheader { source } => {
            if input.len() < PREHEADER_LEN {
                Progress::Wait
            } else if input.take(MAGIC_LEN as int) != MAGIC@ {
                Progress::Refuse { taken: 0, error: SaltlickError::BadMagic }
            } else if input[MAGIC_LEN as int] != Version::V1.byte() {
                Progress::Refuse {
                    taken: PREHEADER_LEN as nat,
                    error: SaltlickError::UnsupportedVersion,
                }
            } else {
                Progress::Advance {
                    taken: PREHEADER_LEN as nat,
                    output: Seq::empty(),
                    phase: DecrypterPhase::PublicKey { source },
                }
            }
        },
        DecrypterPhase::PublicKey { source } => {
            if input.len() < PUBLICKEYBYTES {
                Progress::Wait
            } else {
                match resolved(source, input.take(PUBLICKEYBYTES as int), found) {
                    Ok(phase) => Progress::Advance {
                        taken: PUBLICKEYBYTES as nat,
                        output: Seq::empty(),
                        phase,
                    },
                    Err(error) => Progress::Refuse { taken: PUBLICKEYBYTES as nat, error },
                }
            }
        },
        DecrypterPhase::SealedText { public_key, secret_key } => {
            if input.len() < SEALEDTEXT_LEN {
                Progress::Wait
            } else {
                match sodium::box_opened(
                    input.take(SEALEDTEXT_LEN as int),
                    public_key,
                    secret_key,
                ) {
                    Some(message) => Progress::Advance {
                        taken: SEALEDTEXT_LEN as nat,
                        output: Seq::empty(),
                        phase: DecrypterPhase::Length {
                            state: sodium::initial_state(
                                message.skip(KEYBYTES as int),
                                message.take(KEYBYTES as int),
                            ),
                        },
                    },
                    None => Progress::Refuse {
                        taken: 0,
                        error: SaltlickError::DecryptionFailure,
                    },
                }
            }
        },
        DecrypterPhase::Length { state } => {
            if input.len() < MESSAGE_LEN_LEN {
                Progress::Wait
            } else {
                let (message, next) = sodium::message_opened(
                    state,
                    input.take(MESSAGE_LEN_LEN as int),
                );
                match read::length_in(message) {
                    Some(length) => if read::block_fits(length) {
                        Progress::Advance {
                            taken: MESSAGE_LEN_LEN as nat,
                            output: Seq::empty(),
                            phase: DecrypterPhase::Block { state: next, length },
                        }
                    } else {
                        Progress::Refuse {
                            taken: MESSAGE_LEN_LEN as nat,
                            error: SaltlickError::DecryptionFailure,
                        }
                    },
                    None => Progress::Refuse {
                        taken: 0,
                        error: SaltlickError::DecryptionFailure,
                    },
                }
            }
        },
        DecrypterPhase::Block { state, length } => {
            if input.len() < length + ABYTES {
                Progress::Wait
            } else {
                let (message, next) = sodium::message_opened(state, input.take(length + ABYTES));
                match read::block_in(message, length) {
                    Some((output, last)) => Progress::Advance {
                        taken: length + ABYTES as nat,
                        output,
                        phase: if last {
                            DecrypterPhase::Finalized
                        } else {
                            DecrypterPhase::Length { state: next }
                        },
                    },
                    None => Progress::Refuse {
                        taken: 0,
                        error: SaltlickError::DecryptionFailure,
                    },
                }
            }
        },
        DecrypterPhase::Finalized => Progress::Wait,
        DecrypterPhase::Failed => Progress::Wait,
    }
}

/// The phase that the public key of the stream leads to, or the error where there
/// is no secret key for it.
pub open spec fn resolved(
    source: KeySource,
    file_public_key: Seq<u8>,
    found: Option<Seq<u8>>,
) -> Result<DecrypterPhase, SaltlickError> {
    match source {
        KeySource::Available { public_key, secret_key } => if file_public_key == public_key {
            Ok(DecrypterPhase::SealedText { public_key, secret_key })
        } else {
            Err(SaltlickError::PublicKeyMismatch)
        },
        KeySource::Deferred => match found {
            Some(secret_key) => Ok(
                DecrypterPhase::SealedText { public_key: file_public_key, secret_key },
            ),
            None => Err(SaltlickError::SecretKeyNotFound),
        },
    }
}

/// What a pull ends with.
pub struct Outcome {
    /// The plaintext that was read, or the error that was met.
    pub result: Result<Seq<u8>, SaltlickError>,
    /// What the decrypter then looks like.
    pub after: DecrypterView,
}

impl Outcome {
    /// The outcome of a pull that has already read `output`. An error takes the
    /// plaintext of the whole pull with it.
    pub open spec fn behind(self, output: Seq<u8>) -> Outcome {
        match self.result {
            Ok(rest) => Outcome { result: Ok(output + rest), ..self },
            Err(_) => self,
        }
    }
}

/// Nothing is added to an outcome by having read nothing before.
pub proof fn lemma_behind_nothing(outcome: Outcome)
    ensures
        outcome.behind(Seq::empty()) == outcome,
{
    if let Ok(rest) = outcome.result {
        assert(Seq::<u8>::empty() + rest =~= rest);
    }
}

/// Plaintext that was read in two parts adds up.
pub proof fn lemma_behind_both(outcome: Outcome, first: Seq<u8>, second: Seq<u8>)
    ensures
        outcome.behind(second).behind(first) == outcome.behind(first + second),
{
    if let Ok(rest) = outcome.result {
        assert(first + (second + rest) =~= (first + second) + rest);
    }
}

/// What comes of reading `input` from `phase` on, as far as it goes.
pub open spec fn run(phase: DecrypterPhase, input: Seq<u8>, found: Option<Seq<u8>>) -> Outcome
    decreases input.len(),
{
    match progress(phase, input, found) {
        Progress::Wait => Outcome {
            result: Ok(Seq::empty()),
            after: DecrypterView { buffered: input, phase },
        },
        Progress::Advance { taken, output, phase: next } => run(
            next,
            input.skip(taken as int),
            found,
        ).behind(output),
        Progress::Refuse { taken, error } => Outcome {
            result: Err(error),
            after: DecrypterView {
                buffered: input.skip(taken as int),
                phase: DecrypterPhase::Failed,
            },
        },
    }
}

/// The public key that the lookup is asked for while `input` is read from `phase`
/// on, where it is asked.
pub open spec fn asked(phase: DecrypterPhase, input: Seq<u8>) -> Option<Seq<u8>> {
    match phase {
        DecrypterPhase::Preheader { source: KeySource::Deferred } => match progress(
            phase,
            input,
            None,
        ) {
            Progress::Advance { .. } if input.len() >= PREHEADER_LEN + PUBLICKEYBYTES => Some(
                input.subrange(PREHEADER_LEN as int, PREHEADER_LEN + PUBLICKEYBYTES),
            ),
            _ => None,
        },
        DecrypterPhase::PublicKey { source: KeySource::Deferred } => if input.len()
            >= PUBLICKEYBYTES {
            Some(input.take(PUBLICKEYBYTES as int))
        } else {
            None
        },
        _ => None,
    }
}

/// Whether `result` and `after` are what comes of pulling `ciphertext` through a
/// decrypter that looks like `before`. Where a lookup is asked, `found` is its
/// answer.
///
/// The ciphertext joins what is buffered. A finalized decrypter refuses it. Any
/// other reads the stream as far as the buffered bytes go.
pub open spec fn pulled(
    before: DecrypterView,
    ciphertext: Seq<u8>,
    found: Option<Seq<u8>>,
    result: Result<Seq<u8>, SaltlickError>,
    after: DecrypterView,
) -> bool {
    let input = before.buffered + ciphertext;
    match before.phase {
        DecrypterPhase::Finalized => {
            &&& result == Err::<Seq<u8>, SaltlickError>(SaltlickError::Finalized)
            &&& after == DecrypterView { buffered: input, ..before }
        },
        DecrypterPhase::Failed => false,
        phase => run(phase, input, found) == (Outcome { result, after }),
    }
}

/// Low-level interface to decrypting data in the saltlick format.
pub struct Decrypter {
    ciphertext: BytesMut,
    state: DecrypterState,
}

impl KeyResolution {
    spec fn source(self) -> KeySource {
        match self {
            KeyResolution::Available(public_key, secret_key) => KeySource::Available {
                public_key: public_key@,
                secret_key: secret_key@,
            },
            KeyResolution::Deferred(_) => KeySource::Deferred,
        }
    }

    /// Whether the lookup, where there is one, can be asked for any key.
    spec fn accepts_all(self) -> bool {
        match self {
            KeyResolution::Available(_, _) => true,
            KeyResolution::Deferred(lookup) => lookup.accepts_all(),
        }
    }

    /// Whether there is a lookup that may give this answer.
    spec fn may_find(self, public_key: Seq<u8>, found: Option<Seq<u8>>) -> bool {
        match self {
            KeyResolution::Available(_, _) => false,
            KeyResolution::Deferred(lookup) => lookup.may_find(public_key, found),
        }
    }
}

/// Whether `lookup_fn` may return an answer with these bytes when called with a
/// key with those.
pub open spec fn closure_may_find<F>(
    lookup_fn: F,
    public_key: Seq<u8>,
    found: Option<Seq<u8>>,
) -> bool where F: FnOnce(&PublicKey) -> Option<SecretKey> {
    exists|key: PublicKey, answer: Option<SecretKey>|
        {
            &&& #[trigger] lookup_fn.ensures((&key,), answer)
            &&& key@ == public_key
            &&& key::secret_bytes(answer) == found
        }
}

impl DecrypterState {
    /// The phase that a state between two calls stands for.
    spec fn phase(self) -> DecrypterPhase {
        match self {
            DecrypterState::ReadPreheader(keys) => DecrypterPhase::Preheader {
                source: keys.source(),
            },
            DecrypterState::ReadPublicKey(keys) => DecrypterPhase::PublicKey {
                source: keys.source(),
            },
            DecrypterState::ReadHeader(_, public_key, secret_key) => DecrypterPhase::SealedText {
                public_key: public_key@,
                secret_key: secret_key@,
            },
            DecrypterState::ReadLength(stream) => DecrypterPhase::Length {
                state: sodium::pull_state(stream),
            },
            DecrypterState::ReadBlock(stream, length) => DecrypterPhase::Block {
                state: sodium::pull_state(stream),
                length: length as nat,
            },
            DecrypterState::Finalized => DecrypterPhase::Finalized,
            _ => DecrypterPhase::Failed,
        }
    }

    /// What holds of a state while a pull runs.
    spec fn inv(self) -> bool {
        match self {
            DecrypterState::ReadPreheader(keys) => keys.accepts_all(),
            DecrypterState::ReadPublicKey(keys) => keys.accepts_all(),
            DecrypterState::SecretKeyLookup(_, lookup) => lookup.accepts_all(),
            DecrypterState::ReadLength(stream) => !sodium::pull_finalized(stream),
            DecrypterState::ReadBlock(stream, length) => {
                &&& !sodium::pull_finalized(stream)
                &&& read::block_fits(length as nat)
            },
            _ => true,
        }
    }

    /// Whether a state can stand between two calls.
    spec fn at_rest(self) -> bool {
        &&& self.inv()
        &&& match self {
            DecrypterState::ReadPreheader(_) => true,
            DecrypterState::ReadPublicKey(_) => true,
            DecrypterState::ReadHeader(file_public_key, public_key, _) => file_public_key@
                == public_key@,
            DecrypterState::ReadLength(_) => true,
            DecrypterState::ReadBlock(_, _) => true,
            DecrypterState::Finalized => true,
            DecrypterState::Vacant => true,
            _ => false,
        }
    }

    /// Whether a lookup is held that may give this answer.
    spec fn may_find(self, public_key: Seq<u8>, found: Option<Seq<u8>>) -> bool {
        match self {
            DecrypterState::ReadPreheader(keys) => keys.may_find(public_key, found),
            DecrypterState::ReadPublicKey(keys) => keys.may_find(public_key, found),
            DecrypterState::SecretKeyLookup(_, lookup) => lookup.may_find(public_key, found),
            _ => false,
        }
    }

    /// How many steps a state is away from the next one that reads or ends.
    spec fn rank(self) -> int {
        match self {
            DecrypterState::SecretKeyLookup(_, _) => 2,
            DecrypterState::ReadHeader(_, _, _) => 1,
            DecrypterState::OpenStream(_, _) => 2,
            DecrypterState::ReadPreheader(_) => 1,
            DecrypterState::ReadPublicKey(_) => 1,
            DecrypterState::ReadLength(_) => 1,
            DecrypterState::ReadBlock(_, _) => 1,
            _ => 0,
        }
    }

    /// The public key that the lookup is still to be asked for, where it is.
    spec fn to_ask(self, input: Seq<u8>) -> Option<Seq<u8>> {
        match self {
            DecrypterState::SecretKeyLookup(file_public_key, _) => Some(file_public_key@),
            _ => asked(self.phase(), input),
        }
    }

    /// Whether a pull that began in the state `start`, with the bytes `input`, can
    /// have come to this state, with the bytes `buffered`, having given `output`
    /// and, where `answer` is there, having asked the lookup.
    spec fn follows(
        self,
        start: DecrypterState,
        input: Seq<u8>,
        buffered: Seq<u8>,
        answer: Option<Option<Seq<u8>>>,
        output: Seq<u8>,
    ) -> bool {
        &&& !(self is Vacant)
        &&& self is Finalized <==> start is Finalized
        &&& self is Finalized ==> buffered == input && answer is None
        &&& start is Finalized || forall|found: Option<Seq<u8>>|
            (answer matches Some(a) ==> found == a) ==> #[trigger] run(
                start.phase(),
                input,
                found,
            ) == self.resumed(buffered, found).behind(output)
        &&& match answer {
            Some(found) => {
                &&& asked(start.phase(), input) matches Some(public_key)
                &&& start.may_find(public_key, found)
                &&& found matches Some(secret_key) ==> secret_key.len() == SECRETKEYBYTES
                &&& !self.awaits_key()
            },
            None => {
                &&& asked(start.phase(), input) == self.to_ask(buffered)
                &&& self.awaits_key() ==> forall|public_key: Seq<u8>, found: Option<Seq<u8>>|
                    #[trigger] self.may_find(public_key, found) == start.may_find(
                        public_key,
                        found,
                    )
            },
        }
    }

    /// Whether the secret key has not been settled yet.
    spec fn awaits_key(self) -> bool {
        self is ReadPreheader || self is ReadPublicKey || self is SecretKeyLookup
    }

    /// What comes of a pull that goes on from this state with the bytes `input`.
    spec fn resumed(self, input: Seq<u8>, found: Option<Seq<u8>>) -> Outcome {
        match self {
            DecrypterState::SecretKeyLookup(file_public_key, _) => match resolved(
                KeySource::Deferred,
                file_public_key@,
                found,
            ) {
                Ok(phase) => run(phase, input, found),
                Err(error) => refused(input, error),
            },
            DecrypterState::ReadHeader(file_public_key, public_key, _) => if file_public_key@
                == public_key@ {
                run(self.phase(), input, found)
            } else {
                refused(input, SaltlickError::PublicKeyMismatch)
            },
            DecrypterState::OpenStream(key, header) => run(
                DecrypterPhase::Length {
                    state: sodium::initial_state(
                        sodium::stream_header_bytes(header),
                        sodium::stream_key_bytes(key),
                    ),
                },
                input,
                found,
            ),
            DecrypterState::FinalBlock => run(DecrypterPhase::Finalized, input, found),
            DecrypterState::Error(error) => refused(input, error),
            _ => run(self.phase(), input, found),
        }
    }
}

impl DecrypterPhase {
    /// Whether the secret key has not been settled yet.
    pub open spec fn awaits_key(self) -> bool {
        self is Preheader || self is PublicKey
    }

    /// The text that a decrypter in this phase is shown as.
    pub open spec fn text(self) -> Seq<char> {
        match self {
            DecrypterPhase::Preheader { .. } => "DecrypterState::ReadPreheader"@,
            DecrypterPhase::PublicKey { .. } => "DecrypterState::ReadPublicKey"@,
            DecrypterPhase::SealedText { .. } => "DecrypterState::ReadHeader"@,
            DecrypterPhase::Length { .. } => "DecrypterState::ReadLength"@,
            DecrypterPhase::Block { .. } => "DecrypterState::ReadBlock"@,
            DecrypterPhase::Finalized => "DecrypterState::Finalized"@,
            DecrypterPhase::Failed => "DecrypterState::None"@,
        }
    }
}

/// The text of a decrypter tells its phase: different phases have different
/// texts.
pub proof fn law_text_tells_phase(left: DecrypterPhase, right: DecrypterPhase)
    requires
        left.text() == right.text(),
    ensures
        left is Preheader <==> right is Preheader,
        left is PublicKey <==> right is PublicKey,
        left is SealedText <==> right is SealedText,
        left is Length <==> right is Length,
        left is Block <==> right is Block,
        left is Finalized <==> right is Finalized,
        left is Failed <==> right is Failed,
{
    reveal_strlit("DecrypterState::ReadPreheader");
    reveal_strlit("DecrypterState::ReadPublicKey");
    reveal_strlit("DecrypterState::ReadHeader");
    reveal_strlit("DecrypterState::ReadLength");
    reveal_strlit("DecrypterState::ReadBlock");
    reveal_strlit("DecrypterState::Finalized");
    reveal_strlit("DecrypterState::None");
    assert("DecrypterState::ReadPreheader"@.len() == 29);
    assert("DecrypterState::ReadPreheader"@[21] == 'r');
    assert("DecrypterState::ReadPublicKey"@.len() == 29);
    assert("DecrypterState::ReadPublicKey"@[21] == 'u');
    assert("DecrypterState::ReadHeader"@.len() == 26 && "DecrypterState::ReadHeader"@[20] == 'H');
    assert("DecrypterState::ReadLength"@.len() == 26 && "DecrypterState::ReadLength"@[20] == 'L');
    assert("DecrypterState::ReadBlock"@.len() == 25 && "DecrypterState::ReadBlock"@[16] == 'R');
    assert("DecrypterState::Finalized"@.len() == 25 && "DecrypterState::Finalized"@[16] == 'F');
    assert("DecrypterState::None"@.len() == 20);
}

/// What a pull ends with that meets an error.
pub open spec fn refused(input: Seq<u8>, error: SaltlickError) -> Outcome {
    Outcome {
        result: Err(error),
        after: DecrypterView { buffered: input, phase: DecrypterPhase::Failed },
    }
}

impl View for Decrypter {
    type V = DecrypterView;

    closed spec fn view(&self) -> DecrypterView {
        DecrypterView {
            buffered: bytebuf::contents(self.ciphertext),
            phase: self.state.phase(),
        }
    }
}

impl Decrypter {
    /// What holds of a decrypter between two calls.
    pub closed spec fn inv(&self) -> bool {
        self.state.at_rest()
    }

    /// Whether the lookup that the decrypter holds may answer `found` when it is
    /// asked for `public_key`.
    pub closed spec fn may_find(&self, public_key: Seq<u8>, found: Option<Seq<u8>>) -> bool {
        self.state.may_find(public_key, found)
    }

    /// Create a new decrypter using the provided public and secret key.
    pub fn new(public_key: PublicKey, secret_key: SecretKey) -> (decrypter: Decrypter)
        ensures
            decrypter.inv(),
            decrypter@ == (DecrypterView {
                buffered: Seq::empty(),
                phase: DecrypterPhase::Preheader {
                    source: KeySource::Available {
                        public_key: public_key@,
                        secret_key: secret_key@,
                    },
                },
            }),
            public_key@.len() == PUBLICKEYBYTES,
            secret_key@.len() == SECRETKEYBYTES,
    {
        proof {
            use_type_invariant(&public_key);
            use_type_invariant(&secret_key);
        }
        Decrypter {
            ciphertext: bytebuf::empty(),
            state: DecrypterState::ReadPreheader(KeyResolution::Available(public_key, secret_key)),
        }
    }

    /// Create a new decrypter that calls `lookup_fn` with the public key
    /// obtained from the stream to obtain a secret key.
    ///
    /// This function allows for delayed lookup of a secret key - for example,
    /// when there are multiple potential keys that could have been used to
    /// encrypt the file. The lookup function should return the secret key
    /// corresponding to the given public key, or `None` if no appropriate key
    /// is available. In this case, the Decrypter will return a
    /// `SaltlickError::SecretKeyNotFound` error from `pull`.
    pub fn new_deferred<F>(lookup_fn: F) -> (decrypter: Decrypter) where
        F: FnOnce(&PublicKey) -> Option<SecretKey> + 'static,

        requires
            forall|public_key: PublicKey| #[trigger] lookup_fn.requires((&public_key,)),
        ensures
            decrypter.inv(),
            decrypter@ == (DecrypterView {
                buffered: Seq::empty(),
                phase: DecrypterPhase::Preheader { source: KeySource::Deferred },
            }),
            forall|public_key: Seq<u8>, found: Option<Seq<u8>>|
                #[trigger] decrypter.may_find(public_key, found) <==> closure_may_find(
                    lookup_fn,
                    public_key,
                    found,
                ),
            forall|public_key: Seq<u8>, found: Option<Seq<u8>>| #[trigger]
                decrypter.may_find(public_key, found) ==> exists|
                    key: PublicKey,
                    answer: Option<SecretKey>,
                |
                    {
                        &&& #[trigger] lookup_fn.ensures((&key,), answer)
                        &&& key@ == public_key
                        &&& answer matches Some(secret_key) ==> found == Some(secret_key@)
                        &&& answer is None ==> found is None
                    },
    {
        let lookup = Lookup { lookup_fn: Box::new(lookup_fn) };
        assert(forall|key: PublicKey, answer: Option<SecretKey>| #[trigger]
            lookup.lookup_fn.may_answer(key, answer) == lookup_fn.ensures((&key,), answer));
        assert(forall|key: PublicKey, answer: Option<SecretKey>| #[trigger]
            lookup_fn.ensures((&key,), answer) == lookup.lookup_fn.may_answer(key, answer));
        Decrypter {
            ciphertext: bytebuf::empty(),
            state: DecrypterState::ReadPreheader(KeyResolution::Deferred(lookup)),
        }
    }

    /// Pull ciphertext "through" the decrypter, receiving decrypted plaintext
    /// in return.
    ///
    /// Nothing may be pulled after an error other than
    /// [`SaltlickError::Finalized`].
    pub fn pull(&mut self, ciphertext: &[u8]) -> (result: Result<MultiBuf, SaltlickError>)
        requires
            old(self).inv(),
            !(old(self)@.phase is Failed),
            old(self)@.buffered.len() + ciphertext@.len() <= bytebuf::capacity_limit(),
        ensures
            final(self).inv(),
            exists|found: Option<Seq<u8>>|
                {
                    &&& #[trigger] pulled(
                        old(self)@,
                        ciphertext@,
                        found,
                        multibuf::bytes_of(result),
                        final(self)@,
                    )
                    &&& asked(old(self)@.phase, old(self)@.buffered + ciphertext@) matches Some(
                        public_key,
                    ) ==> old(self).may_find(public_key, found)
                    &&& found matches Some(secret_key) ==> secret_key.len() == SECRETKEYBYTES
                },
            final(self)@.phase.awaits_key() ==> forall|
                public_key: Seq<u8>,
                found: Option<Seq<u8>>,
            | #[trigger]
                final(self).may_find(public_key, found) == old(self).may_find(public_key, found),
            final(self)@.phase is Preheader || final(self)@.phase is PublicKey ==> forall|
                public_key: Seq<u8>,
                found: Option<Seq<u8>>,
            | #[trigger]
                final(self).may_find(public_key, found) == old(self).may_find(public_key, found),
    {
        let ghost before = self@;
        let ghost start = self.state;
        let ghost input = self@.buffered + ciphertext@;
        let ghost mut answer: Option<Option<Seq<u8>>> = None;
        let mut output = MultiBuf::new();
        bytebuf::append(&mut self.ciphertext, ciphertext);
        proof {
            assert forall|found: Option<Seq<u8>>|
                !(before.phase is Finalized) implies #[trigger] run(before.phase, input, found)
                == start.resumed(input, found).behind(Seq::empty()) by {
                lemma_behind_nothing(start.resumed(input, found));
            }
        }
        loop
            invariant
                before == old(self)@,
                start == old(self).state,
                before.phase == start.phase(),
                start.at_rest(),
                input == before.buffered + ciphertext@,
                self.state.inv(),
                self.state.follows(
                    start,
                    input,
                    bytebuf::contents(self.ciphertext),
                    answer,
                    output@,
                ),
            decreases bytebuf::contents(self.ciphertext).len(), self.state.rank(),
        {
            let mut state = DecrypterState::Vacant;
            std::mem::swap(&mut self.state, &mut state);
            let ghost was = state;
            let ghost buffered = bytebuf::contents(self.ciphertext);
            let ghost given = output@;
            let ghost mut step: Seq<u8> = Seq::empty();
            let ghost found: Option<Seq<u8>> = match answer {
                Some(found) => found,
                None => None,
            };
            proof {
                if !(was is Finalized) {
                    assert(run(before.phase, input, found) == was.resumed(buffered, found).behind(
                        given,
                    ));
                }
                assert(given + Seq::empty() =~= given);
            }
            match state {
                DecrypterState::ReadPreheader(key_resolution) => {
                    match read::preheader(bytebuf::as_slice(&self.ciphertext)) {
                        Ok(ReadStatus::Complete(version, n)) => {
                            bytebuf::advance(&mut self.ciphertext, n);
                            if version != Version::V1 {
                                self.state = DecrypterState::Error(
                                    SaltlickError::UnsupportedVersion,
                                );
                            } else {
                                self.state = DecrypterState::ReadPublicKey(key_resolution);
                            }
                        },
                        Ok(ReadStatus::Incomplete(_needed)) => {
                            self.state = DecrypterState::ReadPreheader(key_resolution);
                            assert(pulled(
                                before,
                                ciphertext@,
                                found,
                                multibuf::bytes_of(Ok(output)),
                                self@,
                            ));
                            return Ok(output);
                        },
                        Err(e) => {
                            self.state = DecrypterState::Error(e);
                        },
                    }
                },
                DecrypterState::ReadPublicKey(key_resolution) => {
                    match read::header_v1_public_key(bytebuf::as_slice(&self.ciphertext)) {
                        Ok(ReadStatus::Complete(file_public_key, n)) => {
                            bytebuf::advance(&mut self.ciphertext, n);
                            match key_resolution {
                                KeyResolution::Available(public_key, secret_key) => {
                                    self.state = DecrypterState::ReadHeader(
                                        file_public_key,
                                        public_key,
                                        secret_key,
                                    );
                                },
                                KeyResolution::Deferred(lookup) => {
                                    self.state = DecrypterState::SecretKeyLookup(
                                        file_public_key,
                                        lookup,
                                    );
                                },
                            }
                        },
                        Ok(ReadStatus::Incomplete(_needed)) => {
                            self.state = DecrypterState::ReadPublicKey(key_resolution);
                            assert(pulled(
                                before,
                                ciphertext@,
                                found,
                                multibuf::bytes_of(Ok(output)),
                                self@,
                            ));
                            return Ok(output);
                        },
                        Err(e) => {
                            self.state = DecrypterState::Error(e);
                        },
                    }
                },
                DecrypterState::SecretKeyLookup(file_public_key, lookup) => {
                    let found = lookup.lookup_fn.call_box(&file_public_key);
                    proof {
                        answer = Some(key::secret_bytes(found));
                        assert(was.may_find(file_public_key@, key::secret_bytes(found)));
                    }
                    match found {
                        Some(secret_key) => {
                            proof {
                                use_type_invariant(&secret_key);
                            }
                            self.state = DecrypterState::ReadHeader(
                                file_public_key,
                                file_public_key,
                                secret_key,
                            );
                        },
                        None => {
                            self.state = DecrypterState::Error(SaltlickError::SecretKeyNotFound);
                        },
                    }
                },
                DecrypterState::ReadHeader(file_public_key, public_key, secret_key) => {
                    if file_public_key != public_key {
                        assert(pulled(
                            before,
                            ciphertext@,
                            found,
                            Err(SaltlickError::PublicKeyMismatch),
                            self@,
                        ));
                        return Err(SaltlickError::PublicKeyMismatch);
                    }
                    match read::header_v1_sealed_text(
                        bytebuf::as_slice(&self.ciphertext),
                        &public_key,
                        &secret_key,
                    ) {
                        Ok(ReadStatus::Complete((key, header), n)) => {
                            bytebuf::advance(&mut self.ciphertext, n);
                            self.state = DecrypterState::OpenStream(key, header);
                        },
                        Ok(ReadStatus::Incomplete(_needed)) => {
                            self.state = DecrypterState::ReadHeader(
                                file_public_key,
                                public_key,
                                secret_key,
                            );
                            assert(pulled(
                                before,
                                ciphertext@,
                                found,
                                multibuf::bytes_of(Ok(output)),
                                self@,
                            ));
                            return Ok(output);
                        },
                        Err(e) => {
                            self.state = DecrypterState::Error(e);
                        },
                    }
                },
                DecrypterState::OpenStream(key, header) => {
                    match sodium::open_pull(&header, &key) {
                        Ok(stream) => {
                            self.state = DecrypterState::ReadLength(stream);
                        },
                        Err(()) => {
                            self.state = DecrypterState::Error(SaltlickError::DecryptionFailure);
                        },
                    }
                },
                DecrypterState::ReadLength(stream) => {
                    let mut stream = stream;
                    match read::length(bytebuf::as_slice(&self.ciphertext), &mut stream) {
                        Ok(ReadStatus::Complete(length, n)) => {
                            bytebuf::advance(&mut self.ciphertext, n);
                            if length > usize::MAX - ABYTES {
                                // No machine of this word size can hold such a block.
                                self.state = DecrypterState::Error(
                                    SaltlickError::DecryptionFailure,
                                );
                            } else {
                                self.state = DecrypterState::ReadBlock(stream, length);
                            }
                        },
                        Ok(ReadStatus::Incomplete(_needed)) => {
                            self.state = DecrypterState::ReadLength(stream);
                            assert(pulled(
                                before,
                                ciphertext@,
                                found,
                                multibuf::bytes_of(Ok(output)),
                                self@,
                            ));
                            return Ok(output);
                        },
                        Err(e) => {
                            self.state = DecrypterState::Error(e);
                        },
                    }
                },
                DecrypterState::ReadBlock(stream, length) => {
                    let mut stream = stream;
                    match read::block(bytebuf::as_slice(&self.ciphertext), &mut stream, length) {
                        Ok(ReadStatus::Complete((plaintext, finalized), n)) => {
                            bytebuf::advance(&mut self.ciphertext, n);
                            proof {
                                step = plaintext@;
                            }
                            output.push(plaintext);
                            if finalized {
                                self.state = DecrypterState::FinalBlock;
                            } else {
                                self.state = DecrypterState::ReadLength(stream);
                            }
                        },
                        Ok(ReadStatus::Incomplete(_needed)) => {
                            self.state = DecrypterState::ReadBlock(stream, length);
                            assert(pulled(
                                before,
                                ciphertext@,
                                found,
                                multibuf::bytes_of(Ok(output)),
                                self@,
                            ));
                            return Ok(output);
                        },
                        Err(e) => {
                            self.state = DecrypterState::Error(e);
                        },
                    }
                },
                DecrypterState::FinalBlock => {
                    self.state = DecrypterState::Finalized;
                    assert(pulled(
                        before,
                        ciphertext@,
                        found,
                        multibuf::bytes_of(Ok(output)),
                        self@,
                    ));
                    return Ok(output);
                },
                DecrypterState::Finalized => {
                    self.state = DecrypterState::Finalized;
                    assert(pulled(
                        before,
                        ciphertext@,
                        found,
                        Err(SaltlickError::Finalized),
                        self@,
                    ));
                    return Err(SaltlickError::Finalized);
                },
                DecrypterState::Error(e) => {
                    assert(pulled(
                        before,
                        ciphertext@,
                        found,
                        Err(e),
                        self@,
                    ));
                    return Err(e);
                },
                DecrypterState::Vacant => {
                    return vstd::pervasive::unreached();
                },
            }
            proof {
                let left = bytebuf::contents(self.ciphertext);
                let state = self.state;
                assert(buffered.skip(0) =~= buffered);
                assert(given + step =~= output@);
                if state is ReadPublicKey && left.len() >= PUBLICKEYBYTES {
                    assert(left.take(PUBLICKEYBYTES as int) =~= buffered.subrange(
                        PREHEADER_LEN as int,
                        PREHEADER_LEN + PUBLICKEYBYTES,
                    ));
                }
                assert forall|found: Option<Seq<u8>>|
                    {
                        &&& !(start is Finalized)
                        &&& answer matches Some(a) ==> found == a
                    } implies #[trigger] run(before.phase, input, found) == state.resumed(
                    left,
                    found,
                ).behind(output@) by {
                    lemma_behind_nothing(state.resumed(left, found));
                    lemma_behind_both(state.resumed(left, found), given, step);
                    assert(was.resumed(buffered, found) == state.resumed(left, found).behind(step));
                }
                assert forall|public_key: Seq<u8>, found: Option<Seq<u8>>|
                    answer is None && state.awaits_key() implies #[trigger] state.may_find(
                    public_key,
                    found,
                ) == start.may_find(public_key, found) by {
                    assert(was.may_find(public_key, found) == start.may_find(public_key, found));
                }
            }
        }
    }

    /// Returns true if the crypter has been finalized.
    pub fn is_finalized(&self) -> (finalized: bool)
        ensures
            finalized == (self@.phase is Finalized),
    {
        match self.state {
            DecrypterState::Finalized => true,
            _ => false,
        }
    }

    /// Returns true if the crypter has not been finalized.
    pub fn is_not_finalized(&self) -> (not_finalized: bool)
        ensures
            not_finalized == !(self@.phase is Finalized),
    {
        !self.is_finalized()
    }

    /// The state of the crypter, as text.
    pub fn state_text(&self) -> (text: String)
        requires
            self.inv(),
        ensures
            text@ == self@.phase.text(),
            text@ == (match self@.phase {
                DecrypterPhase::Preheader { .. } => "DecrypterState::ReadPreheader"@,
                DecrypterPhase::PublicKey { .. } => "DecrypterState::ReadPublicKey"@,
                DecrypterPhase::SealedText { .. } => "DecrypterState::ReadHeader"@,
                DecrypterPhase::Length { .. } => "DecrypterState::ReadLength"@,
                DecrypterPhase::Block { .. } => "DecrypterState::ReadBlock"@,
                DecrypterPhase::Finalized => "DecrypterState::Finalized"@,
                DecrypterPhase::Failed => "DecrypterState::None"@,
            }),
    {
        self.state.describe()
    }

    /// Where the secret key comes from, as text, while it is not settled yet.
    pub fn key_resolution_text(&self) -> (text: Option<&'static str>)
        ensures
            text is Some <==> self@.phase.awaits_key(),
            text matches Some(t) ==> t@ == (match self@.phase {
                DecrypterPhase::Preheader { source: KeySource::Available { .. } }
                | DecrypterPhase::PublicKey {
                    source: KeySource::Available { .. },
                } => "KeyResolution::Available"@,
                _ => "KeyResolution::Deferred"@,
            }),
    {
        match &self.state {
            DecrypterState::ReadPreheader(keys) => Some(keys.describe()),
            DecrypterState::ReadPublicKey(keys) => Some(keys.describe()),
            _ => None,
        }
    }
}

} // verus!
