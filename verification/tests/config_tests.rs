use hive::config::{apply_env_overrides, env_override_key, env_override_vars, parse_bool, parse_u16, validate_config, ConfigCore};

#[test]
fn test_config_validation() {
    let mut invalid = ConfigCore::default();
    invalid.server.port = 0;
    let result = validate_config(&invalid);
    assert!(result.is_err());
    let errors = result.unwrap_err();
    assert!(errors.contains(&"Server port cannot be 0".to_string()));
}

#[test]
fn default_config_is_valid() {
    assert!(validate_config(&ConfigCore::default()).is_ok());
}

#[test]
fn test_env_overrides() {
    let mut config = ConfigCore::default();
    config.server.port = 3002;
    config.logging.level = "info".to_string();
    let overrides = vec![
        ("server.port".to_string(), "4000".to_string()),
        ("logging.level".to_string(), "warn".to_string()),
    ];
    apply_env_overrides(&mut config, &overrides);
    assert_eq!(config.server.port, 4000);
    assert_eq!(config.logging.level, "warn");
}

#[test]
fn unparsable_override_is_ignored() {
    let mut config = ConfigCore::default();
    let before = config.server.port;
    apply_env_overrides(&mut config, &vec![("server.port".to_string(), "70000".to_string())]);
    assert_eq!(config.server.port, before);
    apply_env_overrides(&mut config, &vec![("metrics.enabled".to_string(), "false".to_string())]);
    assert!(!config.metrics.enabled);
}

#[test]
fn override_keys() {
    assert_eq!(env_override_key("MCP_SERVER_PORT"), Some("server.port".to_string()));
    assert_eq!(env_override_key("MCP_LOG_LEVEL"), Some("logging.level".to_string()));
    assert_eq!(env_override_key("HOME"), None);
    assert_eq!(env_override_vars().len(), 5);
}

#[test]
fn number_and_bool_parsing() {
    assert_eq!(parse_u16("4000"), Some(4000));
    assert_eq!(parse_u16("+80"), Some(80));
    assert_eq!(parse_u16("65536"), None);
    assert_eq!(parse_u16(""), None);
    assert_eq!(parse_u16("12a"), None);
    assert_eq!(parse_bool("true"), Some(true));
    assert_eq!(parse_bool("false"), Some(false));
    assert_eq!(parse_bool("yes"), None);
}
