//! `pet clip`: copy the selected commands to the clipboard.
use vstd::prelude::*;
use crate::cmd::{resolve, resolves, Resolution};

verus! {

/// The options of `pet clip`.
#[derive(Debug, Clone, Default)]
pub struct ClipOptions {
    pub query: Option<String>,
    pub tag: Option<String>,
    pub delimiter: String,
    pub raw: bool,
    pub show_command: bool,
    pub color: bool,
}

/// What `clip` copies for the selected `commands`: the parameter form comes
/// first for a single command with placeholders unless `raw`; several
/// commands are joined by the delimiter.
pub fn run(opts: &ClipOptions, commands: &Vec<String>) -> (r: Resolution)
    ensures
        resolves(commands@, !opts.raw, opts.delimiter@, r),
{
    resolve(commands, !opts.raw, opts.delimiter.as_str())
}

/// Whether `clip` prints the copied `command` first: when asked to and it is not empty.
pub fn announces(opts: &ClipOptions, command: &str) -> (r: bool)
    ensures
        r == (opts.show_command && command@.len() > 0),
{
    opts.show_command && crate::text::to_chars(command).len() > 0
}

} // verus!
