//! A small key-value server library: the wire codec, the command grammar,
//! the expiring store and the per-connection session logic, each stated as
//! a contract over a mathematical model and proved against it.

pub mod cmd;
pub mod codec;
pub mod connection;
pub mod db;
pub mod decimal;
pub mod frame;
pub mod parse;
pub mod server;
