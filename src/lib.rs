//! MD5 and SHA-1 message digests computed block by block, so that input of
//! any size can be hashed without holding it in memory.
pub mod hash_algorithm;
pub mod hex;

pub use hash_algorithm::engine::Phase;
pub use hash_algorithm::md5::{MD5Context, MD5};
pub use hash_algorithm::sha1::{SHA1Context, SHA1};
