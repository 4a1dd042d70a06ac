//! `pet sync`: the decisions around pushing to and pulling from a gist.
use vstd::prelude::*;
use vstd::string::StringExecFns;
use crate::config::{Config, GistConfig};
use crate::error::SyncError;

verus! {

/// The access token: the configured one, else the one from the environment
/// when not empty; missing otherwise.
pub fn resolve_access_token(config: &Config, github_token_env: Option<String>) -> (r: Result<String, SyncError>)
    ensures
        config.gist.access_token@.len() > 0 ==> (r matches Ok(t) && t@ == config.gist.access_token@),
        config.gist.access_token@.len() == 0 ==> match github_token_env {
            Some(e) => if e@.len() > 0 {
                r matches Ok(t) && t@ == e@
            } else {
                r matches Err(SyncError::MissingAccessToken)
            },
            None => r matches Err(SyncError::MissingAccessToken),
        },
{
    if crate::text::to_chars(config.gist.access_token.as_str()).len() > 0 {
        return Ok(config.gist.access_token.clone());
    }
    match github_token_env {
        Some(e) => {
            if crate::text::to_chars(e.as_str()).len() > 0 {
                Ok(e)
            } else {
                Err(SyncError::MissingAccessToken)
            }
        },
        None => Err(SyncError::MissingAccessToken),
    }
}

/// The gist file that holds the snippets: the configured name, or
/// `pet-snippet.toml` when none is set.
pub fn gist_file_name(config: &Config) -> (r: String)
    ensures
        r@ == (if config.gist.file_name@.len() == 0 {
            "pet-snippet.toml"@
        } else {
            config.gist.file_name@
        }),
{
    if crate::text::to_chars(config.gist.file_name.as_str()).len() == 0 {
        String::from_str("pet-snippet.toml")
    } else {
        config.gist.file_name.clone()
    }
}

/// What a push does.
pub enum PushAction {
    /// No gist yet: create one holding `file_name`, then remember its id.
    Create { file_name: String, description: String, public: bool },
    /// Replace `file_name` in the gist `gist_id`.
    Update { gist_id: String, file_name: String },
}

/// What a push does: create the gist on the first push (no `gist_id`),
/// update it afterwards.
pub fn push_action(config: &Config) -> (r: PushAction)
    ensures
        config.gist.gist_id@.len() == 0 ==> (r matches PushAction::Create { file_name, description, public }
            && file_name@ == gist_file_name_spec(config.gist) && description@ == "pet snippets"@
            && public == config.gist.public),
        config.gist.gist_id@.len() > 0 ==> (r matches PushAction::Update { gist_id, file_name }
            && gist_id@ == config.gist.gist_id@ && file_name@ == gist_file_name_spec(config.gist)),
{
    let file_name = gist_file_name(config);
    if crate::text::to_chars(config.gist.gist_id.as_str()).len() == 0 {
        PushAction::Create { file_name, description: String::from_str("pet snippets"), public: config.gist.public }
    } else {
        PushAction::Update { gist_id: config.gist.gist_id.clone(), file_name }
    }
}

/// The gist file name of a `[Gist]` section (see `gist_file_name`).
pub open spec fn gist_file_name_spec(gist: GistConfig) -> Seq<char> {
    if gist.file_name@.len() == 0 {
        "pet-snippet.toml"@
    } else {
        gist.file_name@
    }
}

/// `config` after the first push created the gist `gist_id`: only the
/// gist id changes.
pub fn with_gist_id(config: Config, gist_id: String) -> (r: Config)
    ensures
        r.gist.gist_id == gist_id,
        r.general == config.general,
        r.gitlab == config.gitlab,
        r.ghe_gist == config.ghe_gist,
        r.gist.file_name == config.gist.file_name,
        r.gist.access_token == config.gist.access_token,
        r.gist.public == config.gist.public,
        r.gist.auto_sync == config.gist.auto_sync,
{
    let mut c = config;
    c.gist.gist_id = gist_id;
    c
}

/// Where a pull reads from: the configured gist and file; a pull without a
/// gist id fails before any request.
pub fn pull_source(config: &Config) -> (r: Result<(String, String), SyncError>)
    ensures
        config.gist.gist_id@.len() == 0 <==> r matches Err(SyncError::MissingGistId),
        r is Err ==> r matches Err(SyncError::MissingGistId),
        r matches Ok((id, name)) ==> id@ == config.gist.gist_id@ && name@ == gist_file_name_spec(config.gist),
{
    if crate::text::to_chars(config.gist.gist_id.as_str()).len() == 0 {
        return Err(SyncError::MissingGistId);
    }
    Ok((config.gist.gist_id.clone(), gist_file_name(config)))
}

/// What a pull does next, once the gist's file has been read.
#[derive(Debug, Clone, Copy, PartialEq, Eq, Structural)]
pub enum PullStep {
    /// The gist's file is no valid snippet file: fail, leaving the local file alone.
    Refuse,
    /// Ask before overwriting the local snippet file.
    Ask,
    /// Overwrite the local snippet file with the gist's file.
    Write,
    /// The user declined: leave the local file alone.
    Keep,
}

/// The next step of a pull: a remote file that does not parse is refused
/// before anything else; with `yes` it is written without asking; else the
/// user is asked (`answer` is `None` until then) and it is written only on yes.
pub fn pull_step(remote_valid: bool, yes: bool, answer: Option<bool>) -> (r: PullStep)
    ensures
        !remote_valid ==> r == PullStep::Refuse,
        remote_valid && yes ==> r == PullStep::Write,
        remote_valid && !yes ==> r == match answer {
            None => PullStep::Ask,
            Some(true) => PullStep::Write,
            Some(false) => PullStep::Keep,
        },
{
    if !remote_valid {
        PullStep::Refuse
    } else if yes {
        PullStep::Write
    } else {
        match answer {
            None => PullStep::Ask,
            Some(true) => PullStep::Write,
            Some(false) => PullStep::Keep,
        }
    }
}

} // verus!
