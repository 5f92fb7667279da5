//! Automatically sell coins on gate.io: the decisions of the trading client.
//!
//! The library holds what the client decides and computes: which key does what, when a balance
//! is worth an order and what that order says, which messages go to which subscriber, how
//! requests are numbered and framed, and when a connection counts as lost. It performs no
//! input or output; a program around it does, and hands the library plain values.

pub mod amount;
pub mod console;
pub mod json;
pub mod rest;
pub mod sale;
pub mod text;
pub mod trader;
pub mod ws;
