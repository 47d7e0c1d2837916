//! Reconnectable session broker for long-running agent subprocesses.
//!
//! The crate provides the broker's verified core: a broadcast-plus-bounded-history
//! message store, the client/server wire protocol with its JSON codec, the agent
//! control-protocol dispatch rules, command building and executable resolution,
//! session storage, and the session manager's bookkeeping.

pub mod log_msg;
pub mod manager;
pub mod command;
pub mod jsontext;
pub mod jsonval;
pub mod msg_store;
pub mod peer;
pub mod shell;
pub mod storage;
pub mod tui;
pub mod wire;

pub use command::{CommandBuilder, CommandParts};
pub use log_msg::LogMsg;
pub use manager::SessionManager;
pub use msg_store::MsgStore;
pub use wire::{ClientMessage, ServerMessage, WsState};
