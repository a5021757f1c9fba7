//! Encrypters and decrypters, from end to end.

use rand::{RngCore, SeedableRng};
use rand_xorshift::XorShiftRng;
use saltlick::crypter::{
    Decrypter, Encrypter, DEFAULT_BLOCK_SIZE, MAX_BLOCK_SIZE, MIN_BLOCK_SIZE,
};
use saltlick::{gen_keypair, PublicKey, SaltlickError};

/// Length of the magic bytes, the version, the public key and the sealed box.
const PREAMBLE_LEN: usize = 8 + 1 + 32 + 104;

/// By how much a frame is longer than its block.
const FRAME_OVERHEAD: usize = 21 + 17;

fn random_bytes(seed: u64, size: usize) -> Vec<u8> {
    let mut rng = XorShiftRng::seed_from_u64(seed);
    let mut bytes = vec![0u8; size];
    rng.fill_bytes(&mut bytes);
    bytes
}

fn encrypted(public: PublicKey, block_size: usize, data: &[u8]) -> Vec<u8> {
    let mut encrypter = Encrypter::new(public);
    encrypter.set_block_size(block_size);
    encrypter.push(data, true).unwrap().to_vec()
}

#[test]
fn simple_test() {
    let test_data = vec![
        random_bytes(0, 567),
        random_bytes(1, 1337),
        random_bytes(2, 16742),
    ];
    let (public, secret) = gen_keypair();

    let mut encrypter = Encrypter::new(public.clone());
    let mut ciphertext = Vec::new();
    encrypter.set_block_size(1500);
    for block in test_data.iter() {
        ciphertext.extend(encrypter.push(block, false).unwrap().to_vec())
    }
    ciphertext.extend(encrypter.push(&[] as &[u8], true).unwrap().to_vec());

    let mut decrypter = Decrypter::new(public, secret);
    let plaintext = decrypter.pull(&ciphertext).unwrap();
    assert_eq!(
        test_data.into_iter().flatten().collect::<Vec<u8>>(),
        plaintext.to_vec()
    );
    assert!(decrypter.is_finalized());
}

#[test]
fn one_byte_at_a_time_test() {
    let test_data = random_bytes(3, 25000);
    let (public, secret) = gen_keypair();

    let mut encrypter = Encrypter::new(public.clone());
    let mut ciphertext = Vec::new();
    encrypter.set_block_size(500);
    for byte in test_data.iter() {
        ciphertext.extend(encrypter.push(&[*byte], false).unwrap().to_vec())
    }
    ciphertext.extend(encrypter.push(&[] as &[u8], true).unwrap().to_vec());

    let mut decrypter = Decrypter::new(public, secret);
    let mut plaintext = Vec::new();
    for byte in ciphertext {
        plaintext.extend(decrypter.pull(&[byte]).unwrap().to_vec());
    }
    assert_eq!(test_data, plaintext);
    assert!(decrypter.is_finalized());
}

#[test]
fn deferred_key_load_test() {
    let test_data = random_bytes(4, 25000);
    let (public, secret) = gen_keypair();

    let mut encrypter = Encrypter::new(public.clone());
    let mut ciphertext = Vec::new();
    ciphertext.extend(encrypter.push(&test_data[..], true).unwrap().to_vec());

    let mut decrypter = Decrypter::new_deferred(move |_public| Some(secret));
    let plaintext = decrypter.pull(&ciphertext[..]).unwrap().to_vec();

    assert_eq!(test_data, plaintext);
    assert!(decrypter.is_finalized());
}

#[test]
fn deferred_key_load_failure_test() {
    let test_data = random_bytes(5, 25000);
    let (public, _secret) = gen_keypair();

    let mut encrypter = Encrypter::new(public.clone());
    let mut ciphertext = Vec::new();
    ciphertext.extend(encrypter.push(&test_data[..], true).unwrap().to_vec());

    let mut decrypter = Decrypter::new_deferred(move |_public| None);
    assert_eq!(
        SaltlickError::SecretKeyNotFound,
        decrypter.pull(&ciphertext[..]).unwrap_err()
    );
}

#[test]
fn module_example() {
    let test_data = vec![vec![1, 2, 3], vec![4, 5, 6]];
    let (public, secret) = gen_keypair();

    let mut encrypter = Encrypter::new(public.clone());
    let mut ciphertext = Vec::new();
    for block in test_data.iter() {
        ciphertext.extend(encrypter.push(block, false).unwrap().to_vec())
    }
    ciphertext.extend(encrypter.push(&[] as &[u8], true).unwrap().to_vec());

    let mut decrypter = Decrypter::new(public, secret);
    let plaintext = decrypter.pull(&ciphertext).unwrap();
    assert_eq!(
        test_data.into_iter().flatten().collect::<Vec<u8>>(),
        plaintext.to_vec()
    );
    assert!(decrypter.is_finalized());
}

#[test]
fn empty_plaintext_makes_one_empty_block() {
    let (public, secret) = gen_keypair();
    let ciphertext = encrypted(public, DEFAULT_BLOCK_SIZE, &[]);
    assert_eq!(PREAMBLE_LEN + FRAME_OVERHEAD, ciphertext.len());

    let mut decrypter = Decrypter::new(public, secret);
    assert_eq!(Vec::<u8>::new(), decrypter.pull(&ciphertext).unwrap().to_vec());
    assert!(decrypter.is_finalized());
}

#[test]
fn first_push_writes_the_preamble() {
    let (public, _secret) = gen_keypair();
    let mut encrypter = Encrypter::new(public);
    let output = encrypter.push(&[1, 2, 3], false).unwrap().to_vec();
    assert_eq!(PREAMBLE_LEN, output.len());
    assert_eq!(b"SALTLICK\x01", &output[..9]);
    assert_eq!(public.as_bytes(), &output[9..41]);

    let output = encrypter.push(&[4, 5, 6], false).unwrap().to_vec();
    assert_eq!(0, output.len());
    assert!(encrypter.is_not_finalized());
}

#[test]
fn stream_length() {
    let (public, _secret) = gen_keypair();
    for (size, blocks) in [(0, 1), (1499, 1), (1500, 2), (1501, 2), (4500, 4), (4501, 4)] {
        let ciphertext = encrypted(public, 1500, &random_bytes(6, size));
        assert_eq!(
            PREAMBLE_LEN + size + blocks * FRAME_OVERHEAD,
            ciphertext.len()
        );
    }
}

#[test]
fn block_is_written_as_soon_as_it_is_full() {
    let (public, _secret) = gen_keypair();
    let mut encrypter = Encrypter::new(public);
    encrypter.set_block_size(2000);
    let output = encrypter.push(&random_bytes(7, 1999), false).unwrap();
    assert_eq!(PREAMBLE_LEN, output.to_vec().len());
    let output = encrypter.push(&[0], false).unwrap();
    assert_eq!(2000 + FRAME_OVERHEAD, output.to_vec().len());
    let output = encrypter.push(&random_bytes(8, 4001), false).unwrap();
    assert_eq!(2 * (2000 + FRAME_OVERHEAD), output.to_vec().len());
    let output = encrypter.push(&[], true).unwrap();
    assert_eq!(1 + FRAME_OVERHEAD, output.to_vec().len());
    assert!(encrypter.is_finalized());
}

#[test]
fn block_size_limits() {
    assert_eq!(1024, MIN_BLOCK_SIZE);
    assert_eq!(8 * 1024 * 1024, MAX_BLOCK_SIZE);
    assert_eq!(512 * 1024, DEFAULT_BLOCK_SIZE);

    let (public, _secret) = gen_keypair();
    // Smaller block sizes are raised to the smallest one.
    for block_size in [0, 1, 500, 1023, 1024] {
        let ciphertext = encrypted(public, block_size, &random_bytes(9, 2048));
        assert_eq!(PREAMBLE_LEN + 2048 + 3 * FRAME_OVERHEAD, ciphertext.len());
    }
    // Larger ones are lowered to the largest one.
    let data = vec![7u8; MAX_BLOCK_SIZE + 1];
    for block_size in [MAX_BLOCK_SIZE, MAX_BLOCK_SIZE + 1, usize::MAX] {
        let ciphertext = encrypted(public, block_size, &data);
        assert_eq!(
            PREAMBLE_LEN + data.len() + 2 * FRAME_OVERHEAD,
            ciphertext.len()
        );
    }
    // A new encrypter has the default block size.
    let data = vec![7u8; DEFAULT_BLOCK_SIZE];
    let mut encrypter = Encrypter::new(public);
    let ciphertext = encrypter.push(&data[1..], false).unwrap().to_vec();
    assert_eq!(PREAMBLE_LEN, ciphertext.len());
    let ciphertext = encrypter.push(&data[..1], false).unwrap().to_vec();
    assert_eq!(data.len() + FRAME_OVERHEAD, ciphertext.len());
}

#[test]
fn block_size_may_change_between_pushes() {
    let (public, secret) = gen_keypair();
    let data = random_bytes(10, 9000);
    let mut encrypter = Encrypter::new(public);
    let mut ciphertext = Vec::new();
    for (i, block_size) in [1024, 5000, 2000].iter().enumerate() {
        encrypter.set_block_size(*block_size);
        let part = &data[i * 3000..(i + 1) * 3000];
        ciphertext.extend(encrypter.push(part, i == 2).unwrap().to_vec());
    }
    let mut decrypter = Decrypter::new(public, secret);
    assert_eq!(data, decrypter.pull(&ciphertext).unwrap().to_vec());
    assert!(decrypter.is_finalized());
}

#[test]
fn pieces_make_no_difference_to_the_decrypter() {
    let (public, secret) = gen_keypair();
    let data = random_bytes(11, 7000);
    let ciphertext = encrypted(public, 1024, &data);
    let mut decrypter = Decrypter::new(public, secret);
    let mut plaintext = Vec::new();
    for part in ciphertext.chunks(97) {
        assert!(decrypter.is_not_finalized());
        plaintext.extend(decrypter.pull(part).unwrap().to_vec());
        assert_eq!(&data[..plaintext.len()], &plaintext[..]);
    }
    assert_eq!(data, plaintext);
    assert!(decrypter.is_finalized());
}

#[test]
fn pieces_make_no_difference_to_the_encrypter() {
    let (public, secret) = gen_keypair();
    let data = random_bytes(12, 7000);
    let mut encrypter = Encrypter::new(public);
    encrypter.set_block_size(1024);
    let mut ciphertext = Vec::new();
    for part in data.chunks(333) {
        ciphertext.extend(encrypter.push(part, false).unwrap().to_vec());
    }
    ciphertext.extend(encrypter.push(&[], true).unwrap().to_vec());
    assert_eq!(encrypted(public, 1024, &data).len(), ciphertext.len());
    let mut decrypter = Decrypter::new(public, secret);
    assert_eq!(data, decrypter.pull(&ciphertext).unwrap().to_vec());
}

#[test]
fn stream_that_is_cut_short_does_not_finalize() {
    let data = random_bytes(13, 3000);
    // Where the stream is cut, and how much plaintext comes out before the cut.
    for (cut, complete) in [
        (0, 0),
        (8, 0),
        (9, 0),
        (40, 0),
        (41, 0),
        (144, 0),
        (145, 0),
        (165, 0),
        (166, 0),
        (1206, 0),
        (1207, 1024),
        (2268, 1024),
        (2269, 2048),
        (3258, 2048),
    ] {
        let (public, secret) = gen_keypair();
        let ciphertext = encrypted(public, 1024, &data);
        assert_eq!(3259, ciphertext.len());
        let mut decrypter = Decrypter::new(public, secret);
        let plaintext = decrypter.pull(&ciphertext[..cut]).unwrap().to_vec();
        assert_eq!(&data[..complete], &plaintext[..]);
        assert!(decrypter.is_not_finalized());
    }
}

#[test]
fn stream_that_was_not_finalized_does_not_finalize() {
    let (public, secret) = gen_keypair();
    let data = random_bytes(14, 3000);
    let mut encrypter = Encrypter::new(public);
    encrypter.set_block_size(1024);
    let ciphertext = encrypter.push(&data, false).unwrap().to_vec();
    assert!(encrypter.is_not_finalized());

    let mut decrypter = Decrypter::new(public, secret);
    let plaintext = decrypter.pull(&ciphertext).unwrap().to_vec();
    assert_eq!(&data[..2048], &plaintext[..]);
    assert!(decrypter.is_not_finalized());
}

#[test]
fn finalized_encrypter_refuses_more() {
    let (public, _secret) = gen_keypair();
    let mut encrypter = Encrypter::new(public);
    encrypter.push(&[1], true).unwrap();
    assert!(encrypter.is_finalized());
    for finalize in [false, true] {
        assert_eq!(
            SaltlickError::Finalized,
            encrypter.push(&[2], finalize).unwrap_err()
        );
        assert!(encrypter.is_finalized());
    }
}

#[test]
fn finalized_decrypter_refuses_more() {
    let (public, secret) = gen_keypair();
    let mut ciphertext = encrypted(public, 1024, &[1, 2, 3]);
    // What follows the end of the stream is left alone.
    ciphertext.extend(vec![9u8; 100]);
    let mut decrypter = Decrypter::new(public, secret);
    assert_eq!(vec![1, 2, 3], decrypter.pull(&ciphertext).unwrap().to_vec());
    assert!(decrypter.is_finalized());
    for _ in 0..2 {
        assert_eq!(
            SaltlickError::Finalized,
            decrypter.pull(&[]).unwrap_err()
        );
        assert!(decrypter.is_finalized());
    }
}

#[test]
fn bad_magic_is_refused() {
    for i in 0..8 {
        let (public, secret) = gen_keypair();
        let mut ciphertext = encrypted(public, 1024, &[1, 2, 3]);
        ciphertext[i] ^= 1;
        let mut decrypter = Decrypter::new(public, secret);
        assert_eq!(
            Vec::<u8>::new(),
            decrypter.pull(&ciphertext[..8]).unwrap().to_vec()
        );
        assert_eq!(
            SaltlickError::BadMagic,
            decrypter.pull(&ciphertext[8..]).unwrap_err()
        );
        assert!(decrypter.is_not_finalized());
    }
}

#[test]
fn other_version_is_refused() {
    for version in [0, 2, 255] {
        let (public, secret) = gen_keypair();
        let mut ciphertext = encrypted(public, 1024, &[1, 2, 3]);
        ciphertext[8] = version;
        let mut decrypter = Decrypter::new(public, secret);
        assert_eq!(
            SaltlickError::UnsupportedVersion,
            decrypter.pull(&ciphertext[..9]).unwrap_err()
        );
    }
}

#[test]
fn other_public_key_is_refused() {
    let (public, _secret) = gen_keypair();
    let (other_public, other_secret) = gen_keypair();
    let ciphertext = encrypted(public, 1024, &[1, 2, 3]);
    let mut decrypter = Decrypter::new(other_public, other_secret);
    decrypter.pull(&ciphertext[..40]).unwrap();
    assert_eq!(
        SaltlickError::PublicKeyMismatch,
        decrypter.pull(&ciphertext[40..41]).unwrap_err()
    );
}

#[test]
fn other_secret_key_is_refused() {
    let (public, _secret) = gen_keypair();
    let (_other_public, other_secret) = gen_keypair();
    let ciphertext = encrypted(public, 1024, &[1, 2, 3]);
    let mut decrypter = Decrypter::new(public, other_secret);
    decrypter.pull(&ciphertext[..144]).unwrap();
    assert_eq!(
        SaltlickError::DecryptionFailure,
        decrypter.pull(&ciphertext[144..]).unwrap_err()
    );
}

#[test]
fn changed_bytes_are_refused() {
    // In the sealed box, in the length of a block, and in a block.
    for i in [41, 100, 144, 145, 165, 166, 200] {
        let (public, secret) = gen_keypair();
        let mut ciphertext = encrypted(public, 1024, &random_bytes(15, 100));
        ciphertext[i] ^= 1;
        let mut decrypter = Decrypter::new(public, secret);
        assert_eq!(
            SaltlickError::DecryptionFailure,
            decrypter.pull(&ciphertext).unwrap_err()
        );
        assert!(decrypter.is_not_finalized());
    }
}

#[test]
fn error_takes_the_plaintext_of_its_pull_with_it() {
    let (public, secret) = gen_keypair();
    let data = random_bytes(16, 3000);
    let mut ciphertext = encrypted(public, 1024, &data);
    let last = ciphertext.len() - 1;
    ciphertext[last] ^= 1;
    let mut decrypter = Decrypter::new(public, secret);
    assert_eq!(
        SaltlickError::DecryptionFailure,
        decrypter.pull(&ciphertext).unwrap_err()
    );
}

#[test]
fn swapped_frames_are_refused() {
    let (public, secret) = gen_keypair();
    let data = random_bytes(17, 2048);
    let ciphertext = encrypted(public, 1024, &data);
    let frame = 1024 + FRAME_OVERHEAD;
    let mut swapped = ciphertext[..PREAMBLE_LEN].to_vec();
    swapped.extend(&ciphertext[PREAMBLE_LEN + frame..PREAMBLE_LEN + 2 * frame]);
    swapped.extend(&ciphertext[PREAMBLE_LEN..PREAMBLE_LEN + frame]);
    let mut decrypter = Decrypter::new(public, secret);
    assert_eq!(
        SaltlickError::DecryptionFailure,
        decrypter.pull(&swapped).unwrap_err()
    );
}

#[test]
fn lookup_is_asked_for_the_key_of_the_stream() {
    let (public, secret) = gen_keypair();
    let ciphertext = encrypted(public, 1024, &[1, 2, 3]);
    let mut decrypter = Decrypter::new_deferred(move |asked| {
        if *asked == public {
            Some(secret)
        } else {
            None
        }
    });
    let mut plaintext = Vec::new();
    for byte in ciphertext {
        plaintext.extend(decrypter.pull(&[byte]).unwrap().to_vec());
    }
    assert_eq!(vec![1, 2, 3], plaintext);
    assert!(decrypter.is_finalized());
}

#[test]
fn lookup_is_not_asked_before_the_key_has_arrived() {
    let (public, _secret) = gen_keypair();
    let ciphertext = encrypted(public, 1024, &[1, 2, 3]);
    let mut decrypter = Decrypter::new_deferred(|_public| None);
    decrypter.pull(&ciphertext[..40]).unwrap();
    assert_eq!(
        SaltlickError::SecretKeyNotFound,
        decrypter.pull(&ciphertext[40..41]).unwrap_err()
    );
}

#[test]
fn lookup_decides_on_any_bytes_behind_the_preheader() {
    // These bytes are no stream that an encrypter wrote.
    let mut bytes = b"SALTLICK\x01".to_vec();
    bytes.extend(100..132u8);
    for chunk in [1, 7, 41] {
        let (_public, secret) = gen_keypair();
        let mut unknown = Decrypter::new_deferred(|asked| {
            let expected: Vec<u8> = (100..132).collect();
            assert_eq!(&expected[..], asked.as_bytes());
            None
        });
        let mut known = Decrypter::new_deferred(move |_public| Some(secret));
        let mut pulled = 0;
        for part in bytes.chunks(chunk) {
            pulled += part.len();
            assert!(known.pull(part).is_ok());
            let result = unknown.pull(part);
            if pulled < 41 {
                assert!(result.is_ok());
            } else {
                assert_eq!(SaltlickError::SecretKeyNotFound, result.unwrap_err());
            }
        }
        assert_eq!("DecrypterState::ReadHeader", known.state_text());
        assert!(unknown.is_not_finalized());
    }
}

#[test]
fn stream_length_depends_on_bytes_and_block_size_only() {
    let (public, _secret) = gen_keypair();
    let block_size = 1100;
    for chunk in [1, 499, 1100, 5000] {
        let mut encrypter = Encrypter::new(public);
        encrypter.set_block_size(block_size);
        let mut pushed = 0;
        let mut length = 0;
        for part in random_bytes(18, 5000).chunks(chunk) {
            pushed += part.len();
            length += encrypter.push(part, false).unwrap().to_vec().len();
            assert_eq!(145 + (pushed / block_size) * (block_size + 38), length);
        }
        length += encrypter.push(&[], true).unwrap().to_vec().len();
        assert_eq!(145 + pushed + 38 * (pushed / block_size + 1), length);
        assert_eq!(5335, length);
    }
}

#[test]
fn part_of_a_stream_gives_its_complete_blocks() {
    let (public, secret) = gen_keypair();
    let block_size = 1024;
    let data = random_bytes(19, 3000);
    let ciphertext = encrypted(public, block_size, &data);
    let mut decrypter = Decrypter::new(public, secret);
    let mut plaintext = Vec::new();
    for (i, byte) in ciphertext.iter().enumerate() {
        let complete = if i < 145 {
            0
        } else {
            (i - 145) / (block_size + 38)
        };
        assert_eq!(complete * block_size, plaintext.len());
        assert!(decrypter.is_not_finalized());
        plaintext.extend(decrypter.pull(&[*byte]).unwrap().to_vec());
    }
    assert_eq!(data, plaintext);
    assert!(decrypter.is_finalized());
}

#[test]
fn bytes_behind_the_end_are_left_alone() {
    let data = random_bytes(20, 2500);
    for chunk in [1300, 2600, 10000] {
        let (public, secret) = gen_keypair();
        let mut bytes = encrypted(public, 1024, &data);
        bytes.extend(b"SALTLICK and more");
        let mut decrypter = Decrypter::new(public, secret);
        let mut plaintext = Vec::new();
        for part in bytes.chunks(chunk) {
            plaintext.extend(decrypter.pull(part).unwrap().to_vec());
        }
        assert_eq!(data, plaintext);
        assert!(decrypter.is_finalized());
        assert_eq!(SaltlickError::Finalized, decrypter.pull(&[1]).unwrap_err());
    }
}

#[test]
fn two_pulls_end_as_one_does() {
    let data = random_bytes(21, 3000);
    for cut in [0, 20, 100, 150, 1300, 3000] {
        let (public, secret) = gen_keypair();
        let mut ciphertext = encrypted(public, 1024, &data);
        ciphertext[3100] ^= 1;
        let mut decrypter = Decrypter::new(public, secret);
        decrypter.pull(&ciphertext[..cut]).unwrap();
        assert_eq!(
            SaltlickError::DecryptionFailure,
            decrypter.pull(&ciphertext[cut..]).unwrap_err()
        );
        assert!(decrypter.is_not_finalized());
    }
}

#[test]
fn encrypter_state_texts() {
    let (public, _secret) = gen_keypair();
    let mut encrypter = Encrypter::new(public);
    assert_eq!("EncrypterState::Start", encrypter.state_text());
    encrypter.push(&[1], false).unwrap();
    assert_eq!("EncrypterState::NextBlock", encrypter.state_text());
    encrypter.push(&[1], true).unwrap();
    assert_eq!("EncrypterState::Finalized", encrypter.state_text());
}

#[test]
fn decrypter_state_texts() {
    let (public, secret) = gen_keypair();
    let ciphertext = encrypted(public, 1024, &[1, 2, 3]);
    let mut decrypter = Decrypter::new(public, secret);
    let mut at = 0;
    for (to, text) in [
        (8, "DecrypterState::ReadPreheader"),
        (40, "DecrypterState::ReadPublicKey"),
        (144, "DecrypterState::ReadHeader"),
        (165, "DecrypterState::ReadLength"),
        (185, "DecrypterState::ReadBlock"),
        (186, "DecrypterState::Finalized"),
    ] {
        decrypter.pull(&ciphertext[at..to]).unwrap();
        assert_eq!(text, decrypter.state_text());
        at = to;
    }
    assert_eq!(ciphertext.len(), at);

    let mut decrypter = Decrypter::new_deferred(|_public| None);
    decrypter.pull(&ciphertext).unwrap_err();
    assert_eq!("DecrypterState::None", decrypter.state_text());
}

#[test]
fn key_resolution_texts() {
    let (public, secret) = gen_keypair();
    let ciphertext = encrypted(public, 1024, &[1, 2, 3]);
    let mut decrypter = Decrypter::new(public, secret);
    assert_eq!(
        Some("KeyResolution::Available"),
        decrypter.key_resolution_text()
    );
    decrypter.pull(&ciphertext).unwrap();
    assert_eq!(None, decrypter.key_resolution_text());

    let mut decrypter = Decrypter::new_deferred(|_public| None);
    decrypter.pull(&ciphertext[..20]).unwrap();
    assert_eq!(
        Some("KeyResolution::Deferred"),
        decrypter.key_resolution_text()
    );
}
