//! The digest algorithms and the interface they share.
use vstd::prelude::*;

pub mod engine;
pub mod md5;
pub mod sha1;

verus! {

/// A digest algorithm that hashes a message held in memory.
pub trait Hash {
    /// The digest of `message` as lowercase hexadecimal text.
    fn hash_slice(message: &[u8]) -> String;
}

} // verus!
