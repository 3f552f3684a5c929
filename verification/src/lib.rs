//! Dragonfly: the logic of an SSH and local terminal client, verified.
//!
//! The modules hold what the client decides and computes: terminal output
//! handling and shell integration (`osc`, `session_io`, `pty`), the command
//! history (`history`), remote file listings and transfers (`remote`, `ls`,
//! `transfer`), port forwarding (`tunnel`), configuration and settings
//! (`config`, `settings`), credential encryption (`crypto`, `codec`), and
//! cloud sync storage (`cloud`, `digest`).  Sockets, files and the user
//! interface are left to the caller.

pub mod error;
pub mod text;
pub mod osc;
pub mod history;
pub mod cloud;
pub mod digest;
pub mod remote;
pub mod transfer;
pub mod config;
pub mod settings;
pub mod codec;
pub mod crypto;
pub mod ls;
pub mod tunnel;
pub mod session_io;
pub mod pty;
