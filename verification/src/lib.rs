//! A terminal-sharing bridge: it exposes a local interactive process behind a
//! pseudo-terminal as a framed, bidirectional byte stream.
//!
//! The crate holds the three verified cores of the bridge:
//! * the wire protocol codec ([`protocol`]), including the JSON payloads of
//!   the client commands ([`json`]),
//! * the per-connection session state machine ([`session`]), which governs
//!   authentication, spawn, pause/resume, resize and teardown ordering,
//! * the pseudo-terminal size and input-echo rules ([`pty`]).
//!
//! The unverified glue (the listener, the socket loop, the fork/exec of the
//! child process) lives outside the library and drives the state machine with
//! plain events, performing the actions it returns.

use vstd::prelude::*;

pub mod json;
pub mod protocol;
pub mod pty;
pub mod session;

verus! {

/// The columns a spawned terminal gets when the client asks for zero.
pub const DEFAULT_COLS: u16 = 80;

/// The rows a spawned terminal gets when the client asks for zero.
pub const DEFAULT_ROWS: u16 = 24;

} // verus!
