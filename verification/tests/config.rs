use chat_memory::config::{Config, ConfigError, Settings, DEFAULT_BUDGET, DEFAULT_TIMEOUT_SECS};

fn settings(
    api_key: Option<&str>,
    model_flag: Option<&str>,
    model: Option<&str>,
    timeout: Option<&str>,
    budget: Option<&str>,
) -> Settings {
    Settings {
        api_key: api_key.map(|s| s.to_string()),
        model_flag: model_flag.map(|s| s.to_string()),
        model: model.map(|s| s.to_string()),
        timeout: timeout.map(|s| s.to_string()),
        budget: budget.map(|s| s.to_string()),
    }
}

#[test]
fn defaults_are_as_documented() {
    assert_eq!(DEFAULT_TIMEOUT_SECS, 120);
    assert_eq!(DEFAULT_BUDGET, 4096);
    assert_eq!(
        Config::resolve(settings(Some("SECRET-REDACTED"), None, None, None, None)),
        Ok(Config {
            api_key: "SECRET-REDACTED".to_string(),
            model: "gpt-3.5-turbo".to_string(),
            timeout: 120,
            budget: 4096,
        })
    );
}

#[test]
fn missing_credential_fails() {
    assert_eq!(
        Config::resolve(settings(None, None, None, None, None)),
        Err(ConfigError::MissingApiKey)
    );
    assert_eq!(
        Config::resolve(settings(None, Some("gpt-4"), Some("gpt-4"), Some("5"), Some("6"))),
        Err(ConfigError::MissingApiKey)
    );
}

#[test]
fn every_setting_can_be_overridden() {
    assert_eq!(
        Config::resolve(settings(Some("k"), None, Some("gpt-4"), Some("30"), Some("1000"))),
        Ok(Config {
            api_key: "k".to_string(),
            model: "gpt-4".to_string(),
            timeout: 30,
            budget: 1000,
        })
    );
}

#[test]
fn model_of_the_command_line_comes_first() {
    let config = Config::resolve(settings(Some("k"), Some("flag-model"), Some("env-model"), None, None));
    assert_eq!(config.unwrap().model, "flag-model");
    let config = Config::resolve(settings(Some("k"), Some("flag-model"), None, None, None));
    assert_eq!(config.unwrap().model, "flag-model");
    let config = Config::resolve(settings(Some("k"), None, Some("env-model"), None, None));
    assert_eq!(config.unwrap().model, "env-model");
}

#[test]
fn a_number_that_is_no_count_gives_the_default() {
    for text in ["", "soon", "-5", "1.5", "12s", " 30", "18446744073709551616"] {
        let config = Config::resolve(settings(Some("k"), None, None, Some(text), Some(text)));
        let config = config.unwrap();
        assert_eq!(config.timeout, 120, "text {:?}", text);
        assert_eq!(config.budget, 4096, "text {:?}", text);
    }
}

#[test]
fn counts_are_read_in_decimal() {
    let config = Config::resolve(settings(Some("k"), None, None, Some("0"), Some("+8192")));
    let config = config.unwrap();
    assert_eq!(config.timeout, 0);
    assert_eq!(config.budget, 8192);
    let config = Config::resolve(settings(Some("k"), None, None, Some("18446744073709551615"), Some("007")));
    let config = config.unwrap();
    assert_eq!(config.timeout, u64::MAX);
    assert_eq!(config.budget, 7);
}
