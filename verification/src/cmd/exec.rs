//! `pet exec`: run the selected commands.
use vstd::prelude::*;
use crate::cmd::{resolve, resolves, Resolution};

verus! {

/// The options of `pet exec`.
#[derive(Debug, Clone, Default)]
pub struct ExecOptions {
    pub query: Option<String>,
    pub tag: Option<String>,
    pub silent: bool,
    pub color: bool,
}

/// What `exec` runs for the selected `commands`: the parameter form always
/// comes first for a single command with placeholders; several commands are
/// joined by `; `.
pub fn run(opts: &ExecOptions, commands: &Vec<String>) -> (r: Resolution)
    ensures
        resolves(commands@, true, "; "@, r),
{
    resolve(commands, true, "; ")
}

} // verus!
