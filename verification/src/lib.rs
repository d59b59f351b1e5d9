//! The logic of a bridge between a chat transport and a locally spawned
//! assistant process that speaks line-delimited JSON-RPC.
//!
//! The library decides; the caller acts. The state of the runtime is plain
//! data, and every event (a line of the subprocess, the end of its output,
//! a timer, a message of a chat) is a function from the state and the event
//! to the next state and to what the caller is to do: lines to send, requests
//! and turns to complete, fragments of an answer to hand on. The caller owns
//! the subprocess, the channels, the files and the network.
//!
//! Three things reach outside: JSON is read and written by `serde_json`,
//! the bot token is kept by `keyring`, and the record of events asks the
//! clock for the time. What is believed of them is said where they are
//! called.
pub mod chars;
pub mod codex_types;
pub mod config_store;
pub mod decimal;
pub mod flows;
pub mod json;
pub mod laws;
pub mod logbus;
pub mod persist;
pub mod protocol;
pub mod runtime;
pub mod secrets;
pub mod session;
pub mod stream;
pub mod supervisor;
pub mod telegram;
pub mod telegram_text;
pub mod threads;
pub mod time;
