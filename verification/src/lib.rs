//! A minimal client core for a cloud instance's local metadata service.
//!
//! The library covers the protocol logic only: selecting a link-local
//! endpoint, building HTTP/1.1 request frames, parsing response frames
//! byte-exactly, and the two-phase session-token handshake.  All socket
//! I/O is left to the caller, which feeds raw bytes in and out of the
//! state machine in [`client`].

pub mod client;
pub mod codec;
pub mod error;
pub mod headers;
