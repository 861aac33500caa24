use awesome_rust::app_config::AppConfig;

fn round_trip(token: &str, path: &str) -> AppConfig {
    let config = AppConfig {
        GITHUB_TOKEN: token.to_string(),
        REPO_PATH: path.to_string(),
    };
    let text = config.to_json();
    AppConfig::from_json(&text).expect("written text must parse")
}

#[test]
fn round_trip_plain_values() {
    let back = round_trip("ghp_example_token", "/example/repo/path");
    assert_eq!(back.GITHUB_TOKEN, "ghp_example_token");
    assert_eq!(back.REPO_PATH, "/example/repo/path");
}

#[test]
fn round_trip_empty_values() {
    let back = round_trip("", "");
    assert_eq!(back.GITHUB_TOKEN, "");
    assert_eq!(back.REPO_PATH, "");
}

#[test]
fn round_trip_escaped_characters() {
    let tricky = "a\"b\\c\nd\te\rf\u{8}g\u{c}h\u{1}i";
    let back = round_trip(tricky, "/p a t h/\"x\"");
    assert_eq!(back.GITHUB_TOKEN, tricky);
    assert_eq!(back.REPO_PATH, "/p a t h/\"x\"");
}

#[test]
fn round_trip_non_ascii() {
    let back = round_trip("ghp_åäö", "/höme/ünïcode/🦀");
    assert_eq!(back.GITHUB_TOKEN, "ghp_åäö");
    assert_eq!(back.REPO_PATH, "/höme/ünïcode/🦀");
}

#[test]
fn written_text_matches_serde_pretty_form() {
    let config = AppConfig {
        GITHUB_TOKEN: "ghp_example_token".to_string(),
        REPO_PATH: "/example/repo/path".to_string(),
    };
    let mut object = serde_json::Map::new();
    object.insert(
        "GITHUB_TOKEN".to_string(),
        serde_json::Value::String("ghp_example_token".to_string()),
    );
    object.insert(
        "REPO_PATH".to_string(),
        serde_json::Value::String("/example/repo/path".to_string()),
    );
    let expected = serde_json::to_string_pretty(&serde_json::Value::Object(object)).unwrap();
    assert_eq!(config.to_json(), expected);
}

#[test]
fn written_text_is_read_by_serde() {
    let config = AppConfig {
        GITHUB_TOKEN: "ghp_a\"b\\c\nd".to_string(),
        REPO_PATH: "/some/where".to_string(),
    };
    let value: serde_json::Value = serde_json::from_str(&config.to_json()).unwrap();
    assert_eq!(
        value.get("GITHUB_TOKEN").unwrap().as_str().unwrap(),
        "ghp_a\"b\\c\nd"
    );
    assert_eq!(value.get("REPO_PATH").unwrap().as_str().unwrap(), "/some/where");
}

#[test]
fn parser_accepts_keys_in_either_order() {
    let text = "{ \"REPO_PATH\": \"/r\", \"GITHUB_TOKEN\": \"ghp_t\" }";
    let config = AppConfig::from_json(text).unwrap();
    assert_eq!(config.GITHUB_TOKEN, "ghp_t");
    assert_eq!(config.REPO_PATH, "/r");
}

#[test]
fn parser_decodes_standard_escapes() {
    let text = "{\"GITHUB_TOKEN\":\"\\u0041\\u00e9\\t\",\"REPO_PATH\":\"\\\"\\\\\\/\"}";
    let config = AppConfig::from_json(text).unwrap();
    assert_eq!(config.GITHUB_TOKEN, "Aé\t");
    assert_eq!(config.REPO_PATH, "\"\\/");
}

#[test]
fn parser_rejects_malformed_documents() {
    assert!(AppConfig::from_json("").is_none());
    assert!(AppConfig::from_json("{}").is_none());
    assert!(AppConfig::from_json("{\"GITHUB_TOKEN\": \"\"}").is_none());
    assert!(AppConfig::from_json("{\"GITHUB_TOKEN\": \"\", \"REPO_PATH\": 3}").is_none());
    assert!(AppConfig::from_json("{\"GITHUB_TOKEN\": \"\", \"REPO_PATH\": \"\"").is_none());
    assert!(AppConfig::from_json("{\"GITHUB_TOKEN\": \"\", \"REPO_PATH\": \"\"} x").is_none());
    assert!(AppConfig::from_json("{\"GITHUB_TOKEN\": \"\\q\", \"REPO_PATH\": \"\"}").is_none());
    assert!(
        AppConfig::from_json("{\"GITHUB_TOKEN\": \"\\ud800\", \"REPO_PATH\": \"\"}").is_none()
    );
}
