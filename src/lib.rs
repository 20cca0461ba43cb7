//! Cryptographic core of a client-side end-to-end-encrypted storage vault: the key
//! hierarchy (passphrase, KEK, sealed master key, file keys), the Aether envelope that
//! binds a file to its logical path and key, and the authenticated metadata index.
pub mod api;
pub mod bytes;
pub mod crypto;
pub mod folders;
pub mod index;
pub mod paths;
pub mod primitives;
pub mod reconcile;
pub mod session;
pub mod storage;
pub mod storj;
