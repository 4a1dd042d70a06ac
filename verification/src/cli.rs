//! The command line: global flags and subcommands, as plain values.
use vstd::prelude::*;

verus! {

/// The parsed command line.
#[derive(Debug, Clone)]
pub struct Cli {
    /// Config file (default `$HOME/.config/pet/config.toml`).
    pub config: Option<String>,
    /// Debug mode.
    pub debug: bool,
    pub command: Commands,
}

/// What `pet sync` does.
#[derive(Debug, Clone)]
pub enum SyncAction {
    /// Upload the snippet file to the gist.
    Push,
    /// Download the gist over the snippet file; `yes` skips the confirmation.
    Pull { yes: bool },
}

/// The subcommands.
#[derive(Debug, Clone)]
pub enum Commands {
    /// Create a new snippet.
    New { command: Vec<String>, tag: bool, multiline: bool, editor: bool, last: bool },
    /// Show all snippets.
    List { oneline: bool, tags: Option<String>, filter: Option<String> },
    /// Edit the config file.
    Configure,
    /// Delete snippets.
    Delete { query: Option<String>, tag: Option<String>, color: bool },
    /// Edit a snippet file.
    Edit { query: Option<String>, tag: Option<String> },
    /// Search snippets interactively.
    Search {
        raw: bool,
        query: Option<String>,
        tag: Option<String>,
        filter: Option<String>,
        delimiter: String,
        color: bool,
    },
    /// Run the selected commands.
    Exec { query: Option<String>, tag: Option<String>, silent: bool, color: bool },
    /// Copy the selected commands to the clipboard.
    Clip {
        raw: bool,
        query: Option<String>,
        tag: Option<String>,
        delimiter: String,
        show_command: bool,
        color: bool,
    },
    /// Print the version number.
    Version,
    /// Print a completion script for the named shell.
    Completions { shell: String },
    /// Sync the snippet file with a gist.
    Sync { action: SyncAction },
}

} // verus!
