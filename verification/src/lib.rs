//! Core of a small peer-to-peer file hosting tool: the wire protocol and its
//! resumable, chunked transfer engine.
//!
//! The library is pure logic: framing of command frames, byte-range
//! negotiation for resume, chunk planning for bounded-buffer streaming, the
//! per-connection session state machine, and the client's resume loop
//! decisions.  Sockets, files and the interactive front end live outside the
//! library and hand it plain values.

pub mod chunk;
pub mod frame;
pub mod negotiate;
pub mod registry;
pub mod resume;
pub mod session;
pub mod text;
pub mod wire;
