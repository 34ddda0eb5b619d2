pub mod cli;
pub mod cmd;
pub mod config;
pub mod copy;
pub mod glob;
pub mod kitty;
pub mod probe;
pub mod reconnect;
pub mod session;
pub mod ssh;
pub mod text;
pub mod upload;
pub mod wal;
