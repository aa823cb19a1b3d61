//! A single-function ledger program: an authority-bound counter.
//!
//! Each counter lives in an externally allocated storage slot as a fixed
//! 36-byte record: a 32-byte authority identity followed by a little-endian
//! unsigned 32-bit count. A call validates the caller's signature and the
//! slot's ownership, binds the first signer as the permanent authority, and
//! increments the count — by one for an empty payload, or by the value of a
//! 4-byte little-endian payload — wrapping modulo 2^32.
//!
//! The fixed 36-byte layout is a proved invariant of the codec (see
//! `record::lemma_record_round_trip`), not a runtime assertion.

pub mod account;
pub mod processor;
pub mod record;
