use pet::cmd::sync::{gist_file_name, pull_source, push_action, resolve_access_token, with_gist_id, PushAction};
use pet::config::{Config, GistConfig};
use pet::error::SyncError;
use pet::gist::{from_response, status_error, ApiFile, GistApiClient, GistFile, GistInfo};

fn base_config() -> Config {
    Config {
        gist: GistConfig {
            access_token: "token".to_string(),
            file_name: "pet-snippet.toml".to_string(),
            ..Default::default()
        },
        ..Default::default()
    }
}

fn gist_with_content(content: &str) -> GistInfo {
    GistInfo {
        id: "existing-id".to_string(),
        html_url: "https://gist.github.com/existing-id".to_string(),
        files: vec![(
            "pet-snippet.toml".to_string(),
            GistFile {
                content: content.to_string(),
            },
        )],
    }
}

#[test]
fn resolve_access_token_prefers_config_over_env() {
    let mut config = base_config();
    config.gist.access_token = "from-config".to_string();
    let token = resolve_access_token(&config, Some("from-env".to_string())).unwrap();
    assert_eq!(token, "from-config");
}

#[test]
fn resolve_access_token_falls_back_to_env() {
    let mut config = base_config();
    config.gist.access_token = String::new();
    let token = resolve_access_token(&config, Some("from-env".to_string())).unwrap();
    assert_eq!(token, "from-env");
}

#[test]
fn resolve_access_token_errors_when_both_empty() {
    let mut config = base_config();
    config.gist.access_token = String::new();
    let err = resolve_access_token(&config, None).unwrap_err();
    assert!(matches!(err, SyncError::MissingAccessToken));
    let err = resolve_access_token(&config, Some(String::new())).unwrap_err();
    assert!(matches!(err, SyncError::MissingAccessToken));
}

#[test]
fn pull_missing_gist_id_errors_before_any_network_call() {
    let config = base_config();
    assert!(matches!(pull_source(&config), Err(SyncError::MissingGistId)));
    let mut config = base_config();
    config.gist.gist_id = "existing-id".to_string();
    assert_eq!(
        pull_source(&config).unwrap(),
        ("existing-id".to_string(), "pet-snippet.toml".to_string())
    );
}

#[test]
fn gist_info_file_lookup_lists_found_files_when_missing() {
    let info = gist_with_content("content");
    let err = info.file("existing-id", "wrong-name.toml").unwrap_err();
    match err {
        SyncError::FileNotFoundInGist {
            gist_id,
            file_name,
            found,
        } => {
            assert_eq!(gist_id, "existing-id");
            assert_eq!(file_name, "wrong-name.toml");
            assert_eq!(found, vec!["pet-snippet.toml".to_string()]);
        }
        other => panic!("expected FileNotFoundInGist, got {other:?}"),
    }
    assert_eq!(info.file("existing-id", "pet-snippet.toml").unwrap().content, "content");
}

#[test]
fn gist_file_name_defaults_when_unset() {
    let mut config = base_config();
    config.gist.file_name = String::new();
    assert_eq!(gist_file_name(&config), "pet-snippet.toml");
    config.gist.file_name = "mine.toml".to_string();
    assert_eq!(gist_file_name(&config), "mine.toml");
}

#[test]
fn push_creates_first_then_updates() {
    let mut config = base_config();
    config.gist.public = true;
    match push_action(&config) {
        PushAction::Create { file_name, description, public } => {
            assert_eq!(file_name, "pet-snippet.toml");
            assert_eq!(description, "pet snippets");
            assert!(public);
        }
        _ => panic!("expected a create"),
    }
    let config = with_gist_id(config, "new-id".to_string());
    assert_eq!(config.gist.gist_id, "new-id");
    assert_eq!(config.gist.access_token, "token");
    match push_action(&config) {
        PushAction::Update { gist_id, file_name } => {
            assert_eq!(gist_id, "new-id");
            assert_eq!(file_name, "pet-snippet.toml");
        }
        _ => panic!("expected an update"),
    }
}

#[test]
fn truncated_files_are_refused() {
    let files = vec![
        ApiFile { name: "a".to_string(), content: "x".to_string(), truncated: false },
        ApiFile { name: "b".to_string(), content: "y".to_string(), truncated: true },
    ];
    match from_response("id".to_string(), "url".to_string(), files) {
        Err(SyncError::Truncated(name)) => assert_eq!(name, "b"),
        _ => panic!("expected Truncated"),
    }
    let files = vec![ApiFile { name: "a".to_string(), content: "x".to_string(), truncated: false }];
    let info = from_response("id".to_string(), "url".to_string(), files).unwrap();
    assert_eq!(info.id, "id");
    assert_eq!(info.files[0].0, "a");
    assert_eq!(info.files[0].1.content, "x");
}

#[test]
fn failure_statuses_map_to_errors() {
    assert!(matches!(status_error(401, "no".to_string(), Some("g")), SyncError::Unauthorized));
    assert!(matches!(status_error(404, String::new(), Some("g")), SyncError::GistNotFound(id) if id == "g"));
    assert!(matches!(
        status_error(404, "body".to_string(), None),
        SyncError::UnexpectedStatus { status: 404, body } if body.is_empty()
    ));
    assert!(matches!(
        status_error(500, "oops".to_string(), Some("g")),
        SyncError::UnexpectedStatus { status: 500, body } if body == "oops"
    ));
}

#[test]
fn api_requests_carry_the_token_and_path() {
    let client = GistApiClient::with_base_url("tok".to_string(), "http://localhost:1".to_string());
    let r = client.get_request("abc");
    assert_eq!(r.method, "GET");
    assert_eq!(r.url, "http://localhost:1/gists/abc");
    assert_eq!(r.headers[0], ("Authorization".to_string(), "Bearer tok".to_string()));
    assert_eq!(r.headers[3], ("User-Agent".to_string(), "pet-cli".to_string()));
    let r = client.update_request("abc");
    assert_eq!(r.method, "PATCH");
    let r = GistApiClient::new("t".to_string()).create_request();
    assert_eq!(r.method, "POST");
    assert_eq!(r.url, "https://api.github.com/gists");
}
