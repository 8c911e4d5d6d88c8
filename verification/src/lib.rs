//! SLIP (RFC 1055) framing for targets without dynamic allocation: an
//! encoder that rewrites a payload in place into a delimited, escaped wire
//! frame, and a byte-at-a-time decoder state machine that reconstructs the
//! payload, both over buffers of fixed, compile-time capacity.

pub mod buffer;
pub mod laws;
pub mod slip;
