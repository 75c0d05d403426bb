//! Conversational memory for a chat client that is bound to one terminal window.
//!
//! A session is identified by the machine's boot generation and the shell that
//! owns the running process. Each session has an append-only transcript of
//! turns; before every exchange a token-bounded window of that transcript is
//! selected as context, and after a successful exchange the two new turns are
//! appended.
//!
//! But for asking the operating system which process started this one, the
//! crate computes on plain values. Reading and writing the record, the remote
//! call and the command line belong to the program that uses the crate.

pub mod config;
pub mod decimal;
pub mod exchange;
pub mod session;
pub mod store;
pub mod turn;
pub mod window;
