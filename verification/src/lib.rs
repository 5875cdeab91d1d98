//! The logic of a client of Electrum servers: the server's responses and how they are read, the
//! address of a server, and the decisions of connecting to one over TCP and TLS.
//!
//! Nothing here performs input or output. Where a decision depends on a socket, a clock or a name
//! lookup, a function takes what came of it and says what to do next.

pub mod consensus;
pub mod custom_serde;
pub mod encoding;
pub mod ip;
pub mod merkle;
pub mod notation;
pub mod response;
pub mod text;
pub mod transport;
