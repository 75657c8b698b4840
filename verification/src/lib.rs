//! A local secrets vault's verified core: the digest engine that turns the
//! master passphrase into a 256-bit key, the block cipher engine that
//! encrypts and decrypts stored secrets under that key, and the sorted
//! credential list the vault keeps in memory.
pub mod aes;
pub mod algo;
pub mod sha;
pub mod store;
pub mod vault;
