//! A small stand-in for an IRC server, for trying out IRC clients against.
//!
//! The library holds what such a server decides: how a line is parsed
//! ([`message`], [`parser`], [`grammar`]), how a connection gets registered
//! and what it is sent ([`connection`], [`command`], [`reply`]), where a line
//! ends ([`framing`]), who is relayed a line of text ([`relay`]) and which
//! port to listen on ([`port`]). Reading and writing sockets is left to the
//! program around it. Every function states what it returns, and the
//! statements are proved with Verus.

pub mod command;
pub mod connection;
pub mod encoding;
pub mod framing;
pub mod grammar;
pub mod message;
pub mod parser;
pub mod port;
pub mod relay;
pub mod rendering;
pub mod reply;
