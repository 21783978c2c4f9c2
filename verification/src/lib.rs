//! Construction, balancing and signing of privacy-preserving ledger
//! transactions.
//!
//! A proposed transaction accumulates spend, output, mint and burn actions
//! together with a running per-asset value balance.  It can then be posted
//! with a single spending key, or turned into an unsigned transaction that
//! a quorum of participants signs through a three-round threshold protocol
//! (nonce commitments, a canonical signing package, signature shares,
//! aggregation).  Posted transactions serialize to a fixed binary layout
//! whose round trip is proved exact.
//!
//! The zero-knowledge proof system, the note-encryption format and the
//! elliptic-curve signature primitive are outside this library's scope:
//! proofs, keys and signatures appear here as opaque fixed-length byte
//! values derived through a keyed digest.

pub mod errors;
pub mod bytes;
pub mod digest;
pub mod hexstr;
pub mod note;
pub mod balance;
pub mod body;
pub mod posted;
pub mod unsigned;
pub mod proposed;
pub mod batch;
pub mod frost;
