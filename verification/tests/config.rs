use pet::config::{config_dir, default_selectcmd, pick_editor, Config, GeneralConfig};

#[test]
fn pick_editor_prefers_env_var_over_everything_else() {
    let editor = pick_editor(Some("nvim".to_string()), false, || {
        panic!("sensible-editor check should not run when $EDITOR is set")
    });
    assert_eq!(editor, "nvim");
}

#[test]
fn pick_editor_on_windows_without_env_var_is_empty() {
    let editor = pick_editor(None, true, || panic!("sensible-editor check should not run on windows"));
    assert_eq!(editor, "");
}

#[test]
fn pick_editor_falls_back_to_sensible_editor_when_available() {
    let editor = pick_editor(None, false, || true);
    assert_eq!(editor, "sensible-editor");
}

#[test]
fn pick_editor_falls_back_to_vim_when_sensible_editor_missing() {
    let editor = pick_editor(None, false, || false);
    assert_eq!(editor, "vim");
}

#[test]
fn general_defaults_of_a_new_config() {
    let general = GeneralConfig::default();
    assert_eq!(general.column, 40);
    assert_eq!(general.selectcmd, "builtin");
    assert!(general.color);
    assert_eq!(default_selectcmd(), "fzf --ansi --layout=reverse --border --height=90% --pointer=* --cycle --prompt=Snippets:");
    assert_eq!(general.cmd, vec!["sh".to_string(), "-c".to_string()]);
    assert_eq!(general.format, "[$description]: $command $tags");
    assert_eq!(general.backend, "gist");
    let config = Config::default();
    assert_eq!(config.gist.file_name, "");
}

#[test]
fn config_dir_prefers_the_environment_then_the_platform_default() {
    assert_eq!(config_dir(Some("/etc/pet".to_string()), false, None, None, Some("/home/u".to_string())), Some("/etc/pet".to_string()));
    assert_eq!(config_dir(None, false, None, None, Some("/home/u".to_string())), Some("/home/u/.config/pet".to_string()));
    assert_eq!(config_dir(None, false, None, None, None), None);
    assert_eq!(config_dir(None, true, Some("/appdata".to_string()), None, None), Some("/appdata/pet".to_string()));
    assert_eq!(config_dir(None, true, None, None, None), Some("Application Data/pet".to_string()));
}
