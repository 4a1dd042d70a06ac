//! `pet search`: print the selected commands.
use vstd::prelude::*;
use crate::cmd::{resolve, resolves, Resolution};

verus! {

/// The options of `pet search`.
#[derive(Debug, Clone, Default)]
pub struct SearchOptions {
    pub query: Option<String>,
    pub tag: Option<String>,
    pub filter: Option<String>,
    pub delimiter: String,
    pub raw: bool,
    pub color: bool,
}

/// What `search` prints for the selected `commands`: the parameter form
/// comes first for a single command with placeholders unless `raw`; several
/// commands are joined by the delimiter.
pub fn run(opts: &SearchOptions, commands: &Vec<String>) -> (r: Resolution)
    ensures
        resolves(commands@, !opts.raw, opts.delimiter@, r),
{
    resolve(commands, !opts.raw, opts.delimiter.as_str())
}

} // verus!
