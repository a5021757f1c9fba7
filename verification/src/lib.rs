//! Streaming public-key encryption in the saltlick format, with every step of
//! the format and of the two state machines that write and read it verified.
//!
//! A saltlick stream is a short preamble followed by frames. The preamble names
//! the recipient's public key and carries, sealed to that key, what is needed to
//! open the frames. Each frame is an encrypted block length and an encrypted
//! block; the last block of a stream is marked as such.
//!
//! The [`crypter`] module holds the [`crypter::Encrypter`] and the
//! [`crypter::Decrypter`]; [`wire`] says what bytes they exchange; [`laws`]
//! states what holds of the two together.

pub mod bytebuf;
pub mod crypter;
pub mod error;
pub mod key;
pub mod laws;
pub mod multibuf;
pub mod netorder;
pub mod sodium;
pub mod version;
pub mod wire;

pub use crate::error::SaltlickError;
pub use crate::key::{gen_keypair, PublicKey, SecretKey};
