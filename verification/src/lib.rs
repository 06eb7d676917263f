//! Verification and aggregation core for a TLS-attested record of an
//! exchange account's state. A claimed transcript of requests and decrypted
//! responses for two account subsystems — a derivatives/margin account and a
//! spot account — is checked for well-formedness and internal consistency
//! (request/response pairing, strict ordering, no duplicate source accounts),
//! balance fields are extracted from the response bodies by declarative
//! field paths and folded into one shared per-asset accumulator, and the
//! accumulator is reduced to the committed public output: a status code,
//! per-subsystem metadata, and a balance table with all configured
//! stablecoins pooled under one reserved label.
//!
//! Balances are fixed-point integers counting hundred-millionths of a unit;
//! asset symbols, URLs and identifiers are byte strings.
pub mod accounts;
pub mod amount;
pub mod errors;
pub mod extract;
pub mod laws;
pub mod pipeline;
pub mod request;
pub mod rules;
pub mod table;
pub mod text;
pub mod types;
pub mod validate;
