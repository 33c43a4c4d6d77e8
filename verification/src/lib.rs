//! Client-side transport engine for an XML-streaming protocol: stanza framing,
//! SRV-based service discovery, reconnection backoff, and the decision logic of
//! the reader/writer workers that drive a shared byte stream.

pub mod config;
pub mod connection;
pub mod decimal;
pub mod dns;
pub mod handshake;
pub mod retry;
pub mod stanza;
pub mod websocket;
