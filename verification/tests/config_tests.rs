use awesome_rust::app_config::AppConfig;

#[test]
fn test_parse_repo_path_valid() {
    let valid_path = "/absolute/path";
    let result = AppConfig::parse_repo_path(valid_path);

    assert!(result.is_ok());
    assert_eq!(result.unwrap(), valid_path);
}

#[test]
fn test_parse_repo_path_invalid() {
    let invalid_path = "relative/path";
    let result = AppConfig::parse_repo_path(invalid_path);

    assert!(result.is_err());
    assert_eq!(result.unwrap_err(), "Repo-path must be an absolute path");
}

#[test]
fn test_parse_github_token_valid() {
    let valid_token = "ghp_valid_token";
    let result = AppConfig::parse_github_token(valid_token);

    assert!(result.is_ok());
    assert_eq!(result.unwrap(), valid_token);
}

#[test]
fn test_parse_github_token_invalid() {
    let invalid_token = "invalid_token";
    let result = AppConfig::parse_github_token(invalid_token);

    assert!(result.is_err());
    assert_eq!(result.unwrap_err(), "GitHub token must start with 'ghp_'");
}

#[test]
fn test_data_path() {
    let config = AppConfig {
        GITHUB_TOKEN: "ghp_example_token".to_string(),
        REPO_PATH: "/example/repo/path".to_string(),
    };

    let data_path = config.data_path();
    assert_eq!(data_path, "/example/repo/path/data/git.json");
}

#[test]
fn test_parse_repo_path_empty() {
    let result = AppConfig::parse_repo_path("");
    assert!(result.is_err());
    assert_eq!(result.unwrap_err(), "Repo-path must be an absolute path");
}

#[test]
fn test_parse_github_token_too_short() {
    let result = AppConfig::parse_github_token("ghp");
    assert!(result.is_err());
    assert_eq!(result.unwrap_err(), "GitHub token must start with 'ghp_'");
}

#[test]
fn test_parse_github_token_prefix_only() {
    let result = AppConfig::parse_github_token("ghp_");
    assert!(result.is_ok());
    assert_eq!(result.unwrap(), "ghp_");
}

#[test]
fn test_data_path_empty_repo_path() {
    let config = AppConfig {
        GITHUB_TOKEN: String::new(),
        REPO_PATH: String::new(),
    };
    assert_eq!(config.data_path(), "data/git.json");
}

#[test]
fn test_data_path_trailing_slash() {
    let config = AppConfig {
        GITHUB_TOKEN: String::new(),
        REPO_PATH: "/srv/repo/".to_string(),
    };
    assert_eq!(config.data_path(), "/srv/repo/data/git.json");
}
