//! Password-based scrambling of mnemonic word indices.
//!
//! A password is stretched into a 64-byte secret key by iterated
//! memory-hard hashing; the key is split into fixed-width bit chunks, and
//! each word index is combined with its chunk by XOR followed by a modulo
//! over the word-list length. With a power-of-two word-list length the
//! transform is its own inverse, so the same password both scrambles and
//! recovers a backup phrase.

pub mod bitsize;
pub mod errors;
pub mod hashing;
pub mod kdf;
pub mod packer;
pub mod password;
pub mod scramble;
pub mod suggest;
pub mod wordlist;
