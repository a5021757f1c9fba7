//! Low-level push and pull interface to the stream format.
//!
//! Plaintext is pushed into an [`Encrypter`], in pieces of any size, and the
//! bytes that each push returns are the next bytes of the stream. The last push
//! finalizes the stream. The bytes of the stream are then pulled through a
//! [`Decrypter`], again in pieces of any size, until it is finalized.

use vstd::prelude::*;

pub mod decrypter;
pub mod encrypter;
pub mod read;
pub mod write;

pub use crate::crypter::decrypter::Decrypter;
pub use crate::crypter::encrypter::Encrypter;
pub use crate::multibuf::MultiBuf;

verus! {

/// The smallest block size: smaller values are raised to it.
pub const MIN_BLOCK_SIZE: usize = 1024;

/// The largest block size: larger values are lowered to it.
pub const MAX_BLOCK_SIZE: usize = 8 * 1024 * 1024;

/// The block size of a new encrypter.
pub const DEFAULT_BLOCK_SIZE: usize = 512 * 1024;

} // verus!
