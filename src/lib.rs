//! Wire-level framing and session handshake for the Reliable Event Logging
//! Protocol (RELP).
//!
//! The parser turns an accumulated byte buffer into validated frames, the
//! frame type encodes acknowledgements, and the session core drives one
//! connection through its open / ready / closed lifecycle as a state machine
//! whose transport reads and writes are performed by the caller.
pub mod common;
pub mod frame;
pub mod parser;
pub mod session;
pub mod text;
pub mod laws;
