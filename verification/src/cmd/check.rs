//! `check` subcommand: the scriptable exit code.

use vstd::prelude::*;

verus! {

/// Exit codes are the scripting contract: 0 when every ROM parses
/// cleanly, 1 when findings are reported, 2 when a ROM fails to parse.
/// Deliberately different values from `EXIT_ERROR`/`EXIT_WARNINGS` -
/// the caller distinguishes "has findings" from "could not even read".
pub const EXIT_FINDINGS: u8 = 1;

pub const EXIT_PARSE_ERROR: u8 = 2;

/// The exit code of `check`: a ROM that does not parse wins over
/// findings, findings over a clean run.
pub fn check_exit_code(parse_error: bool, findings: bool) -> (code: u8)
    ensures
        code == if parse_error {
            EXIT_PARSE_ERROR
        } else if findings {
            EXIT_FINDINGS
        } else {
            crate::cmd::EXIT_OK
        },
{
    if parse_error {
        EXIT_PARSE_ERROR
    } else if findings {
        EXIT_FINDINGS
    } else {
        crate::cmd::EXIT_OK
    }
}

} // verus!
