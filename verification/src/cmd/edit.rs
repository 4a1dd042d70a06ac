//! `pet edit`: open a snippet file in the editor.
use vstd::prelude::*;
use crate::config::GeneralConfig;

verus! {

/// The options of `pet edit`.
#[derive(Debug, Clone, Default)]
pub struct EditOptions {
    pub query: Option<String>,
    pub tag: Option<String>,
}

/// Whether `edit` first lets the user choose among the snippet files: only
/// when snippet directories are configured; otherwise it opens the main file.
pub fn chooses_file(general: &GeneralConfig) -> (r: bool)
    ensures
        r == (general.snippetdirs@.len() > 0),
{
    general.snippetdirs.len() > 0
}

/// `edit` was asked to choose a snippet file and none was chosen.
#[derive(Debug, Clone, Copy, PartialEq, Eq)]
pub struct NoFileSelected;

/// The file `edit` opens after a choice: the chosen one; without one, the
/// command fails.
pub fn picked_file(chosen: Option<String>) -> (r: Result<String, NoFileSelected>)
    ensures
        match chosen {
            Some(p) => r matches Ok(q) && q@ == p@,
            None => r is Err,
        },
{
    match chosen {
        Some(p) => Ok(p),
        None => Err(NoFileSelected),
    }
}

} // verus!
