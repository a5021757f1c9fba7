//! The bytes of a stream, held against streams that are made and read with
//! sodiumoxide alone.

use byteorder::{ByteOrder, NetworkEndian};
use saltlick::crypter::read::{self, ReadStatus};
use saltlick::crypter::{Decrypter, Encrypter};
use saltlick::sodium;
use saltlick::version::Version;
use saltlick::wire;
use saltlick::{gen_keypair, PublicKey, SaltlickError, SecretKey};
use sodiumoxide::crypto::secretstream::{self, Header, Key, Push, Stream, Tag};
use sodiumoxide::crypto::{box_, sealedbox};

struct Sender {
    bytes: Vec<u8>,
    stream: Stream<Push>,
}

/// Starts a stream with sodiumoxide alone.
fn sender(public: &box_::PublicKey) -> Sender {
    let key = secretstream::gen_key();
    let (stream, header) = Stream::init_push(&key).unwrap();
    let mut sealed = key.as_ref().to_vec();
    sealed.extend(header.as_ref());
    let mut bytes = b"SALTLICK\x01".to_vec();
    bytes.extend(public.as_ref());
    bytes.extend(sealedbox::seal(&sealed, public));
    Sender { bytes, stream }
}

fn send(sender: &mut Sender, length: u32, length_tag: Tag, data: &[u8], tag: Tag) {
    let mut length_bytes = [0u8; 4];
    NetworkEndian::write_u32(&mut length_bytes, length);
    let sealed = sender.stream.push(&length_bytes, None, length_tag).unwrap();
    sender.bytes.extend(sealed);
    if length_tag != Tag::Final {
        sender.bytes.extend(sender.stream.push(data, None, tag).unwrap());
    }
}

fn raw_keys() -> (box_::PublicKey, box_::SecretKey) {
    box_::gen_keypair()
}

fn decrypter_for(public: &box_::PublicKey, secret: &box_::SecretKey) -> Decrypter {
    Decrypter::new(
        PublicKey::from_raw_curve25519(public.as_ref()).unwrap(),
        SecretKey::from_raw_curve25519(&secret.0).unwrap(),
    )
}

#[test]
fn lengths_are_those_of_sodiumoxide() {
    assert_eq!(box_::PUBLICKEYBYTES, sodium::PUBLICKEYBYTES);
    assert_eq!(box_::SECRETKEYBYTES, sodium::SECRETKEYBYTES);
    assert_eq!(sealedbox::SEALBYTES, sodium::SEALBYTES);
    assert_eq!(secretstream::KEYBYTES, sodium::KEYBYTES);
    assert_eq!(secretstream::HEADERBYTES, sodium::HEADERBYTES);
    assert_eq!(secretstream::ABYTES, sodium::ABYTES);
    assert_eq!(8, wire::MAGIC_LEN);
    assert_eq!(b"SALTLICK", &wire::MAGIC);
    assert_eq!(9, wire::PREHEADER_LEN);
    assert_eq!(104, wire::SEALEDTEXT_LEN);
    assert_eq!(21, wire::MESSAGE_LEN_LEN);
}

#[test]
fn stream_of_sodiumoxide_is_read() {
    let (public, secret) = raw_keys();
    let mut sender = sender(&public);
    send(&mut sender, 3, Tag::Message, &[1, 2, 3], Tag::Message);
    send(&mut sender, 1, Tag::Message, &[4], Tag::Message);
    send(&mut sender, 2, Tag::Message, &[5, 6], Tag::Final);
    let mut decrypter = decrypter_for(&public, &secret);
    let plaintext = decrypter.pull(&sender.bytes).unwrap().to_vec();
    assert_eq!(vec![1, 2, 3, 4, 5, 6], plaintext);
    assert!(decrypter.is_finalized());
}

#[test]
fn stream_is_read_by_sodiumoxide() {
    let (public, secret) = raw_keys();
    let mut encrypter = Encrypter::new(PublicKey::from_raw_curve25519(public.as_ref()).unwrap());
    encrypter.set_block_size(1024);
    let data = vec![5u8; 1030];
    let bytes = encrypter.push(&data, true).unwrap().to_vec();

    assert_eq!(b"SALTLICK\x01", &bytes[..9]);
    assert_eq!(public.as_ref(), &bytes[9..41]);
    let opened = sealedbox::open(&bytes[41..145], &public, &secret).unwrap();
    assert_eq!(56, opened.len());
    let key = Key::from_slice(&opened[..32]).unwrap();
    let header = Header::from_slice(&opened[32..]).unwrap();
    let mut stream = Stream::init_pull(&header, &key).unwrap();
    assert_eq!(
        (vec![0, 0, 4, 0], Tag::Message),
        stream.pull(&bytes[145..166], None).unwrap()
    );
    assert_eq!(
        (vec![5; 1024], Tag::Message),
        stream.pull(&bytes[166..1207], None).unwrap()
    );
    assert_eq!(
        (vec![0, 0, 0, 6], Tag::Message),
        stream.pull(&bytes[1207..1228], None).unwrap()
    );
    assert_eq!(
        (vec![5; 6], Tag::Final),
        stream.pull(&bytes[1228..], None).unwrap()
    );
}

#[test]
fn empty_last_block_is_read() {
    let (public, secret) = raw_keys();
    let mut sender = sender(&public);
    send(&mut sender, 1, Tag::Message, &[7], Tag::Message);
    send(&mut sender, 0, Tag::Message, &[], Tag::Final);
    let mut decrypter = decrypter_for(&public, &secret);
    assert_eq!(vec![7], decrypter.pull(&sender.bytes).unwrap().to_vec());
    assert!(decrypter.is_finalized());
}

#[test]
fn empty_block_before_the_last_is_refused() {
    let (public, secret) = raw_keys();
    let mut sender = sender(&public);
    send(&mut sender, 0, Tag::Message, &[], Tag::Message);
    let mut decrypter = decrypter_for(&public, &secret);
    assert_eq!(
        SaltlickError::DecryptionFailure,
        decrypter.pull(&sender.bytes).unwrap_err()
    );
}

#[test]
fn other_tags_on_a_block_are_refused() {
    for tag in [Tag::Push, Tag::Rekey] {
        let (public, secret) = raw_keys();
        let mut sender = sender(&public);
        send(&mut sender, 1, Tag::Message, &[1], tag);
        let mut decrypter = decrypter_for(&public, &secret);
        assert_eq!(
            SaltlickError::DecryptionFailure,
            decrypter.pull(&sender.bytes).unwrap_err()
        );
    }
}

#[test]
fn other_tags_on_a_length_are_refused() {
    for tag in [Tag::Push, Tag::Rekey, Tag::Final] {
        let (public, secret) = raw_keys();
        let mut sender = sender(&public);
        send(&mut sender, 1, tag, &[1], Tag::Message);
        let mut decrypter = decrypter_for(&public, &secret);
        assert_eq!(
            SaltlickError::DecryptionFailure,
            decrypter.pull(&sender.bytes).unwrap_err()
        );
    }
}

#[test]
fn length_that_is_not_that_of_the_block_is_refused() {
    let (public, secret) = raw_keys();
    let mut sender = sender(&public);
    send(&mut sender, 2, Tag::Message, &[1, 2, 3], Tag::Final);
    let mut decrypter = decrypter_for(&public, &secret);
    assert_eq!(
        SaltlickError::DecryptionFailure,
        decrypter.pull(&sender.bytes).unwrap_err()
    );
}

#[test]
fn large_block_length_waits_for_the_block() {
    let (public, secret) = raw_keys();
    let mut sender = sender(&public);
    send(&mut sender, 0x0100_0000, Tag::Message, &[1, 2, 3], Tag::Final);
    let mut decrypter = decrypter_for(&public, &secret);
    assert_eq!(
        Vec::<u8>::new(),
        decrypter.pull(&sender.bytes).unwrap().to_vec()
    );
    assert_eq!("DecrypterState::ReadBlock", decrypter.state_text());
}

#[test]
fn preheader_round_trip() {
    for byte in 0..=255u8 {
        let version = Version::from_u8(byte);
        let mut bytes = saltlick::crypter::write::preheader(version);
        assert_eq!(9, bytes.len());
        assert_eq!(byte, bytes[8]);
        bytes.push(42);
        match read::preheader(&bytes) {
            Ok(ReadStatus::Complete(read, taken)) => {
                assert_eq!(version, read);
                assert_eq!(9, taken);
            }
            _ => panic!("the preheader is complete"),
        }
    }
}

#[test]
fn preheader_needs_nine_bytes() {
    let bytes = saltlick::crypter::write::preheader(Version::V1);
    for n in 0..9 {
        match read::preheader(&bytes[..n]) {
            Ok(ReadStatus::Incomplete(needed)) => assert_eq!(9 - n, needed),
            _ => panic!("the preheader is incomplete"),
        }
    }
    assert!(matches!(
        read::preheader(b"saltlick\x01"),
        Err(SaltlickError::BadMagic)
    ));
}

#[test]
fn public_key_needs_its_bytes() {
    let bytes: Vec<u8> = (0..40).collect();
    for n in 0..32 {
        match read::header_v1_public_key(&bytes[..n]) {
            Ok(ReadStatus::Incomplete(needed)) => assert_eq!(32 - n, needed),
            _ => panic!("the key is incomplete"),
        }
    }
    match read::header_v1_public_key(&bytes) {
        Ok(ReadStatus::Complete(key, taken)) => {
            assert_eq!(&bytes[..32], key.as_bytes());
            assert_eq!(32, taken);
        }
        _ => panic!("the key is complete"),
    }
}

#[test]
fn sealed_text_round_trip() {
    let (public, secret) = gen_keypair();
    let (_other_public, other_secret) = gen_keypair();
    let key = secretstream::gen_key();
    let (_stream, header) = Stream::init_push(&key).unwrap();
    let preamble = saltlick::crypter::write::header_v1(&key, &header, &public);
    assert_eq!(145, preamble.len());
    assert_eq!(b"SALTLICK\x01", &preamble[..9]);
    assert_eq!(public.as_bytes(), &preamble[9..41]);
    match read::header_v1_sealed_text(&preamble[41..], &public, &secret) {
        Ok(ReadStatus::Complete((read_key, read_header), taken)) => {
            assert_eq!(key.as_ref(), read_key.as_ref());
            assert_eq!(header.as_ref(), read_header.as_ref());
            assert_eq!(104, taken);
        }
        _ => panic!("the sealed text is complete"),
    }
    match read::header_v1_sealed_text(&preamble[42..], &public, &secret) {
        Ok(ReadStatus::Incomplete(needed)) => assert_eq!(1, needed),
        _ => panic!("the sealed text is incomplete"),
    }
    assert!(matches!(
        read::header_v1_sealed_text(&preamble[41..], &public, &other_secret),
        Err(SaltlickError::DecryptionFailure)
    ));
}

#[test]
fn preamble_ends_in_the_given_box() {
    let bytes: Vec<u8> = (100..132).collect();
    let public = PublicKey::from_raw_curve25519(&bytes).unwrap();
    let mut expected = b"SALTLICK\x01".to_vec();
    expected.extend(&bytes);
    expected.extend(&[1, 2, 3]);
    assert_eq!(expected, saltlick::crypter::write::header_v1_with(&[1, 2, 3], &public));
}

#[test]
fn key_and_header_are_read_in_this_order() {
    let message: Vec<u8> = (0..60).collect();
    let (key, header) = match read::key_and_header(&message) {
        Ok(pair) => pair,
        Err(_) => panic!("the message is long enough"),
    };
    assert_eq!(&message[..32], key.as_ref());
    assert_eq!(&message[32..56], header.as_ref());
}

#[test]
fn lengths_are_in_network_order() {
    assert_eq!(
        Ok(0x01020304),
        read::length_of(&[1, 2, 3, 4, 5], sodium::Tag::Message)
    );
    assert_eq!(
        Ok(0xffff_fffe),
        read::length_of(&[255, 255, 255, 254], sodium::Tag::Message)
    );
    for tag in [sodium::Tag::Push, sodium::Tag::Rekey, sodium::Tag::Final] {
        assert_eq!(
            Err(SaltlickError::DecryptionFailure),
            read::length_of(&[0, 0, 0, 1], tag)
        );
    }
}

#[test]
fn blocks_by_tag() {
    let failure = Err(SaltlickError::DecryptionFailure);
    assert_eq!(
        Ok((vec![1, 2], false)),
        read::block_of(vec![1, 2], sodium::Tag::Message, 2)
    );
    assert_eq!(
        Ok((vec![1, 2], true)),
        read::block_of(vec![1, 2], sodium::Tag::Final, 2)
    );
    assert_eq!(
        Ok((vec![], true)),
        read::block_of(vec![], sodium::Tag::Final, 0)
    );
    assert_eq!(failure, read::block_of(vec![], sodium::Tag::Message, 0));
    assert_eq!(failure, read::block_of(vec![1], sodium::Tag::Push, 1));
    assert_eq!(failure, read::block_of(vec![1], sodium::Tag::Rekey, 1));
}
