//! A key-value store with per-key expiry, its wire protocol, its log and its
//! command line.
//!
//! Modules whose names end in `_laws` hold no code: they state and prove what
//! holds of the other modules as a whole. What stands on the wire is told by
//! `wire_laws` and `number_laws`, what requests mean by `request_laws`, and what
//! commands do by `store_laws` and `exec_laws`.
pub mod aof;
pub mod aof_laws;
pub mod ascii;
pub mod command;
pub mod command_laws;
pub mod duration;
pub mod exec;
pub mod exec_laws;
pub mod format;
pub mod format_laws;
pub mod index;
pub mod number;
pub mod number_laws;
pub mod protocol;
pub mod protocol_laws;
pub mod repl;
pub mod repl_laws;
pub mod request_laws;
pub mod session;
pub mod session_laws;
pub mod store;
pub mod store_laws;
pub mod table;
pub mod text;
pub mod tokenize;
pub mod tokenize_laws;
pub mod wire_laws;

pub use aof::encode as encode_command;
pub use aof::replay_bytes;
pub use command::{Command, CommandError};
pub use duration::Duration;
pub use exec::{execute, is_write};
pub use format::format_value;
pub use protocol::{decode, ProtocolError, Value};
pub use store::Store;
pub use tokenize::tokenize;
