//! Core of a bidirectional directory synchroniser: change detection with
//! debounce, a length-prefixed wire codec, and the bookkeeping of the peers
//! of a server. Everything here works on plain values; sockets, the
//! filesystem and the change notifier belong to the program around it.

pub mod hasher;
pub mod wire;
pub mod message_handler;
pub mod codec;
pub mod paths;
pub mod events;
pub mod listing;
pub mod watch_state;
pub mod actions;
pub mod backoff;
pub mod file_watcher;
pub mod config;
pub mod server;
pub mod client;
pub mod session;
