//! Settings, as `config.toml` holds them, and their defaults.
use vstd::prelude::*;
use vstd::string::StringExecFns;

verus! {

/// The `[General]` section.
#[derive(Debug, Clone, PartialEq)]
pub struct GeneralConfig {
    pub snippetfile: String,
    pub snippetdirs: Vec<String>,
    pub editor: String,
    pub column: i32,
    pub selectcmd: String,
    pub backend: String,
    pub sortby: String,
    pub cmd: Vec<String>,
    pub color: bool,
    pub format: String,
}

/// The `[Gist]` section.
#[derive(Debug, Clone, Default, PartialEq)]
pub struct GistConfig {
    pub file_name: String,
    pub access_token: String,
    pub gist_id: String,
    pub public: bool,
    pub auto_sync: bool,
}

/// The `[GitLab]` section (kept for compatibility; not used for syncing).
#[derive(Debug, Clone, Default, PartialEq)]
pub struct GitLabConfig {
    pub file_name: String,
    pub access_token: String,
    pub url: String,
    pub id: String,
    pub visibility: String,
    pub auto_sync: bool,
    pub skip_ssl: bool,
}

/// The `[GHEGist]` section (kept for compatibility; not used for syncing).
#[derive(Debug, Clone, Default, PartialEq)]
pub struct GheGistConfig {
    pub base_url: String,
    pub upload_url: String,
    pub file_name: String,
    pub access_token: String,
    pub gist_id: String,
    pub public: bool,
    pub auto_sync: bool,
}

/// The whole configuration file.
#[derive(Debug, Clone, PartialEq)]
pub struct Config {
    pub general: GeneralConfig,
    pub gist: GistConfig,
    pub gitlab: GitLabConfig,
    pub ghe_gist: GheGistConfig,
}

/// The `column` a config file gets when it does not set one.
pub fn default_column() -> (r: i32)
    ensures
        r == 40,
{
    40
}

/// The `selectcmd` a config file gets when it does not set one: fzf.
pub fn default_selectcmd() -> (r: String)
    ensures
        r@ == "fzf --ansi --layout=reverse --border --height=90% --pointer=* --cycle --prompt=Snippets:"@,
{
    String::from_str("fzf --ansi --layout=reverse --border --height=90% --pointer=* --cycle --prompt=Snippets:")
}

/// The shell a config file gets when it does not set `cmd`: `sh -c`.
pub fn default_cmd() -> (r: Vec<String>)
    ensures
        r@.map_values(|s: String| s@) == seq!["sh"@, "-c"@],
{
    let r = vec![String::from_str("sh"), String::from_str("-c")];
    assert(r@.map_values(|s: String| s@) =~= seq!["sh"@, "-c"@]);
    r
}

/// The display template a config file gets when it does not set `format`.
pub fn default_format() -> (r: String)
    ensures
        r@ == "[$description]: $command $tags"@,
{
    String::from_str("[$description]: $command $tags")
}

/// The `backend` a config file gets when it does not set one.
pub fn default_backend() -> (r: String)
    ensures
        r@ == "gist"@,
{
    String::from_str("gist")
}

/// The `selectcmd` value that selects the built-in picker.
pub fn builtin_selectcmd() -> (r: &'static str)
    ensures
        r@ == "builtin"@,
{
    "builtin"
}

/// The `[General]` section of a freshly generated config: the built-in
/// picker, colored selector lines, and the other defaults.
impl Default for GeneralConfig {
    fn default() -> (r: GeneralConfig)
        ensures
            r.snippetfile@ == Seq::<char>::empty(),
            r.snippetdirs@.len() == 0,
            r.editor@ == Seq::<char>::empty(),
            r.column == 40,
            r.selectcmd@ == "builtin"@,
            r.backend@ == "gist"@,
            r.sortby@ == Seq::<char>::empty(),
            r.cmd@.map_values(|s: String| s@) == seq!["sh"@, "-c"@],
            r.color,
            r.format@ == "[$description]: $command $tags"@,
    {
        GeneralConfig {
            snippetfile: String::new(),
            snippetdirs: Vec::new(),
            editor: String::new(),
            column: default_column(),
            selectcmd: String::from_str(builtin_selectcmd()),
            backend: default_backend(),
            sortby: String::new(),
            cmd: default_cmd(),
            color: true,
            format: default_format(),
        }
    }
}

fn empty_gist_config() -> (r: GistConfig)
    ensures
        r.file_name@ == Seq::<char>::empty(),
        r.access_token@ == Seq::<char>::empty(),
        r.gist_id@ == Seq::<char>::empty(),
        !r.public,
        !r.auto_sync,
{
    GistConfig {
        file_name: String::new(),
        access_token: String::new(),
        gist_id: String::new(),
        public: false,
        auto_sync: false,
    }
}

fn empty_gitlab_config() -> (r: GitLabConfig)
    ensures
        r.file_name@ == Seq::<char>::empty(),
        r.access_token@ == Seq::<char>::empty(),
        r.url@ == Seq::<char>::empty(),
        r.id@ == Seq::<char>::empty(),
        r.visibility@ == Seq::<char>::empty(),
        !r.auto_sync,
        !r.skip_ssl,
{
    GitLabConfig {
        file_name: String::new(),
        access_token: String::new(),
        url: String::new(),
        id: String::new(),
        visibility: String::new(),
        auto_sync: false,
        skip_ssl: false,
    }
}

fn empty_ghe_gist_config() -> (r: GheGistConfig)
    ensures
        r.base_url@ == Seq::<char>::empty(),
        r.upload_url@ == Seq::<char>::empty(),
        r.file_name@ == Seq::<char>::empty(),
        r.access_token@ == Seq::<char>::empty(),
        r.gist_id@ == Seq::<char>::empty(),
        !r.public,
        !r.auto_sync,
{
    GheGistConfig {
        base_url: String::new(),
        upload_url: String::new(),
        file_name: String::new(),
        access_token: String::new(),
        gist_id: String::new(),
        public: false,
        auto_sync: false,
    }
}

impl Default for Config {
    fn default() -> (r: Config)
        ensures
            r.gist.file_name@ == Seq::<char>::empty(),
            r.gist.gist_id@ == Seq::<char>::empty(),
            r.gist.access_token@ == Seq::<char>::empty(),
            r.general.snippetfile@ == Seq::<char>::empty(),
            r.general.selectcmd@ == "builtin"@,
    {
        Config {
            general: GeneralConfig::default(),
            gist: empty_gist_config(),
            gitlab: empty_gitlab_config(),
            ghe_gist: empty_ghe_gist_config(),
        }
    }
}

impl Config {
    /// The configuration written on first run: the given snippet file and
    /// editor, the `[General]` defaults, `pet-snippet.toml` as the gist (and
    /// GitLab) file name and a private GitLab visibility.
    pub fn first_run(snippetfile: String, editor: String) -> (r: Config)
        ensures
            r.general.snippetfile@ == snippetfile@,
            r.general.editor@ == editor@,
            r.general.snippetdirs@.len() == 0,
            r.general.column == 40,
            r.general.selectcmd@ == "builtin"@,
            r.general.backend@ == "gist"@,
            r.general.sortby@ == Seq::<char>::empty(),
            r.general.cmd@.map_values(|s: String| s@) == seq!["sh"@, "-c"@],
            r.general.color,
            r.general.format@ == "[$description]: $command $tags"@,
            r.gist.file_name@ == "pet-snippet.toml"@,
            r.gist.access_token@ == Seq::<char>::empty(),
            r.gist.gist_id@ == Seq::<char>::empty(),
            !r.gist.public,
            r.gitlab.file_name@ == "pet-snippet.toml"@,
            r.gitlab.visibility@ == "private"@,
            r.gitlab.access_token@ == Seq::<char>::empty(),
            r.ghe_gist.file_name@ == Seq::<char>::empty(),
    {
        let mut general = GeneralConfig::default();
        general.snippetfile = snippetfile;
        general.editor = editor;
        let mut gist = empty_gist_config();
        gist.file_name = String::from_str("pet-snippet.toml");
        let mut gitlab = empty_gitlab_config();
        gitlab.file_name = String::from_str("pet-snippet.toml");
        gitlab.visibility = String::from_str("private");
        Config { general, gist, gitlab, ghe_gist: empty_ghe_gist_config() }
    }
}

/// The editor a first run configures: `$EDITOR` if set; none on Windows;
/// else `sensible-editor` if that command is available (asked only then),
/// else `vim`.
pub fn pick_editor(env_editor: Option<String>, is_windows: bool, sensible_editor_available: impl FnOnce() -> bool) -> (r: String)
    requires
        env_editor is None && !is_windows ==> sensible_editor_available.requires(()),
    ensures
        match env_editor {
            Some(e) => r@ == e@,
            None => if is_windows {
                r@ == Seq::<char>::empty()
            } else {
                exists|b: bool| sensible_editor_available.ensures((), b) && r@ == (if b {
                    "sensible-editor"@
                } else {
                    "vim"@
                })
            },
        },
{
    match env_editor {
        Some(editor) => editor,
        None => {
            if is_windows {
                String::new()
            } else if sensible_editor_available() {
                String::from_str("sensible-editor")
            } else {
                String::from_str("vim")
            }
        },
    }
}


/// The config directory: `$PET_CONFIG_DIR` when set; on Windows `pet` in
/// `%APPDATA%` (else in `Application Data` under `%USERPROFILE%`); elsewhere
/// `.config/pet` in the home directory, or none without one.
pub fn config_dir(
    pet_config_dir: Option<String>,
    is_windows: bool,
    appdata: Option<String>,
    userprofile: Option<String>,
    home: Option<String>,
) -> (r: Option<String>)
    ensures
        match pet_config_dir {
            Some(d) => r matches Some(p) && p@ == d@,
            None => if is_windows {
                r matches Some(p) && p@ == crate::path::join_path(
                    match appdata {
                        Some(a) => a@,
                        None => crate::path::join_path(
                            match userprofile {
                                Some(u) => u@,
                                None => Seq::<char>::empty(),
                            },
                            "Application Data"@,
                        ),
                    },
                    "pet"@,
                )
            } else {
                match home {
                    Some(h) => r matches Some(p) && p@ == crate::path::join_path(crate::path::join_path(h@, ".config"@), "pet"@),
                    None => r is None,
                }
            },
        },
{
    match pet_config_dir {
        Some(d) => Some(d),
        None => {
            if is_windows {
                let base = match appdata {
                    Some(a) => a,
                    None => {
                        let profile = match userprofile {
                            Some(u) => u,
                            None => String::new(),
                        };
                        crate::path::join(profile.as_str(), "Application Data")
                    },
                };
                Some(crate::path::join(base.as_str(), "pet"))
            } else {
                match home {
                    Some(h) => {
                        let c = crate::path::join(h.as_str(), ".config");
                        Some(crate::path::join(c.as_str(), "pet"))
                    },
                    None => None,
                }
            }
        },
    }
}

} // verus!
