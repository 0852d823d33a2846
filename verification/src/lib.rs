//! A verified core for a command-line credential helper that delegates
//! persistence to an external password-store program.
//!
//! Server URLs are mapped to directory names by a reversible, URL-safe,
//! unpadded base64 encoding; usernames become file names beneath those
//! directories. The modules here hold that mapping layer, the JSON protocol
//! codec, line-oriented output capture, and the pure decision logic of the
//! subcommands. All process, file and environment handling lives outside
//! this library.

pub mod encoding;
pub mod error;
pub mod lines;
pub mod protocol;
pub mod subcommands;
pub mod text;
pub mod util;
