//! A small networked key-value store.
//!
//! A client sends one command to a server over a connection; the server
//! carries it out on a storage engine and sends one reply back. This
//! library holds everything of that which computes: the wire codec
//! ([`resp`]), the commands and their framing ([`command`]), the contract
//! of a storage engine and an engine in memory ([`engine`]), the server's
//! and the client's side of one exchange ([`service`], [`client`]), and
//! the check of an address ([`util`]).
//!
//! On the socket both directions speak the wire format of [`resp`]: a
//! request is the frame of a command, a reply is one value.

pub mod client;
pub mod command;
pub mod connection;
pub mod decimal;
pub mod engine;
pub mod resp;
pub mod service;
pub mod text;
pub mod util;

pub use client::ServerResponse;
pub use command::ClientCommand;
pub use engine::{Engine, KvsEngine, KvsError, MemoryEngine};
pub use resp::{DecodeError, RespValue};
