//! SIA DC-09 alarm transport: frame codec, payload encryption, configuration
//! model, and the decision logic of diallers and receivers.
//!
//! A frame is `LF crc4 len4 body CR`. The body is
//! `"token"seq4[Rxxx][Lxxx]#account[data][ext]..._timestamp`; a token that
//! begins with `*` marks a payload encrypted with AES-CBC under a zero IV,
//! written in upper-case hex after random alphanumeric padding.
//!
//! Two behaviours are fixed here where the protocol leaves room:
//! - a NAK echoes the request's account and sequence number, like an ACK;
//! - besides the `#`-marked account, the parser reads the header shape that
//!   negative acknowledgements use, `0000R0L0A0`, with a decimal line prefix
//!   and no `#`.
//!
//! Modules, leaves first: [`text`] (digits, character classes, string
//! helpers), [`checksum`] (CRC-16/ARC), [`crypto`], [`message`] (the message
//! model and its serialisation), [`ack_message`], [`parser`], [`scenarios`]
//! and [`utils`] (configuration), [`dialler`] and [`setup`] (dialler
//! decisions and construction), [`receiver`] (key selection and replies),
//! and [`laws`] (round trips and other properties across functions).

pub mod text;
pub mod checksum;
pub mod crypto;
pub mod message;
pub mod ack_message;
pub mod parser;
pub mod scenarios;
pub mod utils;
pub mod dialler;
pub mod setup;
pub mod receiver;
pub mod laws;
