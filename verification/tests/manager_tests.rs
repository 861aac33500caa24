use awesome_rust::app_config::AppConfig;
use awesome_rust::app_config_manager::{AppConfigManager, ConfigError};

#[test]
fn test_new() {
    let config_path = String::from("config.json");

    let (manager, created) =
        AppConfigManager::new_with_conig_path(config_path.clone(), None).unwrap();

    assert_eq!(manager.config.GITHUB_TOKEN, "");
    assert_eq!(manager.config.REPO_PATH, "");
    assert_eq!(manager.config_path, "config.json");
    assert!(created.is_some());
}

#[test]
fn test_save_config() {
    let config_path = String::from("config.json");

    let (mut manager, _created) =
        AppConfigManager::new_with_conig_path(config_path, None).unwrap();
    manager.config.GITHUB_TOKEN = "test_token".to_string();
    manager.config.REPO_PATH = "/test/path".to_string();

    let saved_config = manager.save_config();

    assert!(saved_config.contains("test_token"));
    assert!(saved_config.contains("/test/path"));
}

#[test]
fn fresh_load_creates_default_file_text() {
    let (manager, created) =
        AppConfigManager::new_with_conig_path(String::from("config.json"), None).unwrap();

    assert_eq!(manager.config.GITHUB_TOKEN, "");
    assert_eq!(manager.config.REPO_PATH, "");
    let text = created.expect("a missing file must be created");
    assert_eq!(text, "{\n  \"GITHUB_TOKEN\": \"\",\n  \"REPO_PATH\": \"\"\n}");

    let reread = AppConfig::from_json(&text).unwrap();
    assert_eq!(reread.GITHUB_TOKEN, "");
    assert_eq!(reread.REPO_PATH, "");
}

#[test]
fn second_load_is_idempotent() {
    let (first, created) =
        AppConfigManager::new_with_conig_path(String::from("config.json"), None).unwrap();
    let text = created.unwrap();

    let (second, created_again) =
        AppConfigManager::new_with_conig_path(String::from("config.json"), Some(&text)).unwrap();

    assert!(created_again.is_none(), "the second load must not write");
    assert_eq!(first.config.GITHUB_TOKEN, second.config.GITHUB_TOKEN);
    assert_eq!(first.config.REPO_PATH, second.config.REPO_PATH);
}

#[test]
fn malformed_content_is_a_format_error() {
    let result =
        AppConfigManager::new_with_conig_path(String::from("config.json"), Some("not json"));
    match result {
        Err(e) => {
            assert_eq!(e, ConfigError::Format);
            assert_eq!(e.message(), "Failed to deserialize config");
        }
        Ok(_) => panic!("malformed content must be refused"),
    }
}

#[test]
fn unknown_key_is_a_format_error() {
    let text = "{\n  \"GITHUB_TOKEN\": \"\",\n  \"OTHER\": \"\"\n}";
    let result = AppConfigManager::new_with_conig_path(String::from("config.json"), Some(text));
    assert!(result.is_err());
}

#[test]
fn resolved_config_path_names_the_file() {
    // The location depends on the host environment; whenever one is
    // resolved, it must point at `config.json` under some directory.
    if let Some(path) = AppConfigManager::get_config_path() {
        assert!(path.ends_with("/config.json") || path == "config.json");
    }
}

#[test]
fn end_to_end_two_saves() {
    let (mut manager, _created) =
        AppConfigManager::new_with_conig_path(String::from("config.json"), None).unwrap();

    let repo_path = AppConfig::parse_repo_path("/test/path").unwrap();
    manager.config.REPO_PATH = repo_path;
    let first_save = manager.save_config();
    let after_first = AppConfig::from_json(&first_save).unwrap();
    assert_eq!(after_first.REPO_PATH, "/test/path");
    assert_eq!(after_first.GITHUB_TOKEN, "");

    let token = AppConfig::parse_github_token("ghp_example_token").unwrap();
    manager.config.GITHUB_TOKEN = token;
    let second_save = manager.save_config();
    assert!(second_save.contains("/test/path"));
    assert!(second_save.contains("ghp_example_token"));

    let finally = AppConfig::from_json(&second_save).unwrap();
    assert_eq!(finally.GITHUB_TOKEN, "ghp_example_token");
    assert_eq!(finally.REPO_PATH, "/test/path");
}
