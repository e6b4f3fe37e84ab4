//! A client for the remote-console (RCON) protocol of Battlefield game servers.
//!
//! The protocol carries frames of words over one TCP connection: queries of the
//! client with the responses of the server, and notifications of the server with the
//! acknowledgments of the client. This library is the part of a client that decides:
//! the frame codec, the login handshake, the matching of responses to queries, the
//! decoding of notifications and their delivery to subscribers. It opens no socket
//! and waits for nothing; a caller reads and writes the bytes.
//!
//! * [`frame`]: frames to bytes and back.
//! * [`handshake`]: the login, step by step.
//! * [`engine`]: queries in, frames out; frames in, completions and
//!   acknowledgments out. It rests on [`correlation`], [`dispatch`] and [`sequence`].
//! * [`query`]: what a response means, and the mapping to a caller's own types.
//! * [`bf4`]: teams, squads, selectors and events of Battlefield 4.
//! * [`text`]: seven-bit text, as the `ascii` crate holds it.
//! * [`shell`] and [`admins`]: what a console and an admin list compute.

pub mod admins;
pub mod bf4;
pub mod correlation;
pub mod dispatch;
pub mod engine;
pub mod error;
pub mod frame;
pub mod handshake;
pub mod query;
pub mod search;
pub mod sequence;
pub mod shell;
pub mod text;
pub mod wire;
