//! A sans-I/O client for the orchestrator service.
//!
//! The crate builds the HTTP calls that fetch a proof task and submit a
//! proof, and interprets what the service answers. It performs no I/O
//! itself: a driver sends each [`transport::HttpCall`] and hands the
//! [`transport::Reply`] back.
//!
//! - [`client`] holds the two operations and the laws that relate them.
//! - [`transport`] holds the call, the reply and the reading of a reply.
//! - [`schema`] holds the messages, [`message`] what makes a type a message.
//! - [`wire`] is the model of the binary format, and [`encoding`] the calls
//!   into `prost` that read and write it.
//! - [`error`] holds the failures.

pub mod client;
pub mod encoding;
pub mod error;
pub mod message;
pub mod schema;
pub mod transport;
pub mod wire;
