//! Core of a peer-to-peer chat node whose shared state is a proof-of-work
//! chat archive.
//!
//! - [`wire`], [`text`], [`message`]: the bytes of the protocol, message
//!   kinds and the chat entry codec.
//! - [`digest`], [`random`]: MD5 and random nonces, from outside crates.
//! - [`archive`]: the archive, its chain rule, its codec and the miner.
//! - [`peer`]: the peer registry.
//! - [`connection`]: the receive side of a connection as a state machine.
//! - [`node`]: what a node answers and what it adopts.
//! - [`session`]: what whole messages do to a receiver.
//! - [`command`], [`logger`]: the words of the interactive shell and the
//!   form of a log line.

pub mod archive;
pub mod command;
pub mod connection;
pub mod digest;
pub mod logger;
pub mod message;
pub mod node;
pub mod peer;
pub mod random;
pub mod session;
pub mod text;
pub mod wire;
