//! A command-line snippet manager's core: the placeholder grammar of
//! parameterised snippets, the parameter form and picker state machines,
//! display templates, snippet ordering and filtering, usage statistics and
//! the decisions around syncing with a gist.
mod text;
pub mod grammar;
pub mod dialog;
pub mod keys;
pub mod format;
pub mod usage;
pub mod snippet;
pub mod picker;
pub mod tui;
pub mod history;
pub mod config;
pub mod error;
pub mod path;
pub mod selector;
pub mod editor;
pub mod cmd;
pub mod gist;
pub mod cli;
pub mod template;
