//! Verified core of the qcrypt hybrid post-quantum file encryption toolkit.
//!
//! The library holds the archive format (chunk framing, per-chunk nonces,
//! integrity manifest), the private-key wrapping, the LSB steganography
//! engine, the Arweave deep-hash / data-item construction, the forensic
//! archive scanner and the small text formats around them. Cryptographic
//! primitives come from the RustCrypto, secp256k1, blake3, pem, base64 and
//! image crates through the trusted items of `primitives`.

pub mod encoding;
pub mod text;
pub mod primitives;
pub mod stego;
pub mod hybrid;
pub mod chunker;
pub mod keys;
pub mod armour;
pub mod forensic;
pub mod arweave;
pub mod ipfs;
pub mod yubikey;
pub mod cli;
