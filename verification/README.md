# qcrypt

Post-quantum hybrid file encryption (ML-KEM-1024 + AES-256-GCM), with
passphrase / hardware-token key wrapping, stealth (headerless) keys, LSB
steganography, and uploads to IPFS (Pinata) and Arweave (Irys).

The library under `src/` is verified with Verus:

- `encoding`, `text` — hex, decimal, big-endian integers, `u64` parsing,
  trimming and splitting of text.
- `primitives` — the trusted boundary to the cryptographic, encoding, image
  and JSON crates: each outside call with the contract it is believed to meet.
- `hybrid` — the archive format: header, per-chunk nonces, framed AES-GCM
  chunks, EOF marker and BLAKE3 manifest; the sealing and opening state
  machines, the frame-length decision, and their round-trip, tamper,
  truncation and end-to-end laws.
- `chunker` — cutting the plaintext into 1 MiB chunks, independent of how
  the input's reads are split.
- `keys`, `armour` — key files (PEM or stealth), private-key wrapping with
  Argon2id, key generation, public-key recovery, and why key files read back.
- `stego` — stride-dispersed LSB steganography on RGBA pixels, with the
  inject/extract round trip.
- `forensic` — the key-less structural scanner of archives.
- `arweave`, `ipfs` — ANS-104 deep hashing and signed data items, Irys
  replies, IPFS gateway routing and Pinata requests.
- `yubikey`, `cli` — key derivation from passphrases or token responses, and
  the command line's decisions.

`app/` is the command-line program around it: argument parsing, prompts,
files, network, the hardware token, and reports. `tests/` runs the library.
