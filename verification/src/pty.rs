//! The pseudo-terminal surface the session drives.
//!
//! The process behind the terminal is owned by unverified glue; this module
//! holds the parts of its behaviour that are plain computation: the terminal
//! size and its defaults, the choice of command line, and the input-echo rule
//! of the pipe-backed fallback strategy.

use vstd::prelude::*;

use crate::DEFAULT_COLS;
use crate::DEFAULT_ROWS;

verus! {

/// The dimensions of a pseudo-terminal, in character cells.
///
/// Immutable value; a resize request builds a fresh one.
#[derive(Clone, Copy, Debug, PartialEq, Eq, Structural)]
pub struct PtySize {
    pub cols: u16,
    pub rows: u16,
}

impl Default for PtySize {
    /// The size a terminal gets when the client does not name one: 80 by 24.
    fn default() -> (r: Self)
        ensures
            r.cols == DEFAULT_COLS,
            r.rows == DEFAULT_ROWS,
    {
        PtySize { cols: DEFAULT_COLS, rows: DEFAULT_ROWS }
    }
}

/// The size a request for `columns` by `rows` spawns: a zero component falls
/// back to the default (80 columns, 24 rows).
pub open spec fn spec_effective_size(columns: u16, rows: u16) -> PtySize {
    PtySize {
        cols: if columns > 0 { columns } else { DEFAULT_COLS },
        rows: if rows > 0 { rows } else { DEFAULT_ROWS },
    }
}

impl PtySize {
    /// Turn the dimensions a client asked for into the size actually spawned:
    /// each zero component defaults (80 columns, 24 rows).
    pub fn effective(columns: u16, rows: u16) -> (r: PtySize)
        ensures
            r == spec_effective_size(columns, rows),
    {
        PtySize {
            cols: if columns > 0 { columns } else { DEFAULT_COLS },
            rows: if rows > 0 { rows } else { DEFAULT_ROWS },
        }
    }
}

/// The command line a spawn runs for a configured `command`: the configured
/// words, or the fallback shell when none were given.
pub open spec fn spec_effective_command(command: Seq<Seq<char>>, fallback: Seq<char>) -> Seq<
    Seq<char>,
> {
    if command.len() == 0 {
        seq![fallback]
    } else {
        command
    }
}

/// The argv a spawn runs: the configured command, or the fallback shell when
/// the configuration named none.
pub fn effective_command(command: &Vec<String>, fallback: String) -> (r: Vec<String>)
    ensures
        r.deep_view() == spec_effective_command(command.deep_view(), fallback@),
{
    if command.len() == 0 {
        let r = vec![fallback];
        assert(r.deep_view() =~~= seq![fallback@]);
        r
    } else {
        let r = clone_strings(command);
        r
    }
}

/// A field-for-field copy of a list of strings.
fn clone_strings(v: &Vec<String>) -> (r: Vec<String>)
    ensures
        r.deep_view() == v.deep_view(),
{
    let r = v.clone();
    proof {
        assert forall|k: int| 0 <= k < v@.len() implies #[trigger] r.deep_view()[k]
            == v.deep_view()[k] by {
            assert(cloned::<String>(v@[k], r@[k]));
            assert(r@[k]@ == v@[k]@);
        }
        assert(r.deep_view() =~= v.deep_view());
    }
    r
}

/// What the pipe-backed fallback strategy echoes back to the peer for one
/// input chunk when the child process itself does not echo: nothing for an
/// empty chunk or a lone Ctrl-C or Ctrl-D, CR+LF for a lone carriage return,
/// and the chunk itself otherwise.
pub open spec fn spec_echo_for_input(data: Seq<u8>) -> Option<Seq<u8>> {
    if data.len() == 0 {
        None
    } else if data.len() == 1 {
        if data[0] == 3 || data[0] == 4 {
            None
        } else if data[0] == 13 {
            Some(seq![13u8, 10u8])
        } else {
            Some(data)
        }
    } else {
        Some(data)
    }
}

/// The bytes the fallback strategy echoes to the peer for one input chunk,
/// or `None` when the chunk is not echoed.
pub fn echo_for_input(data: &Vec<u8>) -> (r: Option<Vec<u8>>)
    ensures
        r.deep_view() == spec_echo_for_input(data@),
{
    if data.len() == 0 {
        None
    } else if data.len() == 1 {
        let b = data[0];
        if b == 3 || b == 4 {
            None
        } else if b == 13 {
            let out = vec![13u8, 10u8];
            assert(out@ =~= seq![13u8, 10u8]);
            Some(out)
        } else {
            Some(data.clone())
        }
    } else {
        Some(data.clone())
    }
}

} // verus!
