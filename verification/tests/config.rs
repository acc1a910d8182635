use sage::config;
use sage::config::{ConfigError, ConfigFile};

fn sample_config() -> config::AppConfig {
    config::AppConfig {
        model: "E4B".to_string(),
        shell: "/bin/zsh".to_string(),
        show_hints: false,
        auto_copy: true,
    }
}

#[test]
fn resolves_known_models() {
    assert_eq!(
        config::get_model_config("E2B").unwrap().expected_filename,
        "gemma-4-E2B-it-Q4_K_M.gguf"
    );
    assert_eq!(
        config::get_model_config("E4B").unwrap().expected_filename,
        "gemma-4-E4B-it-Q4_K_M.gguf"
    );
}

#[test]
fn rejects_unknown_model() {
    assert!(config::get_model_config("UNKNOWN").is_err());
}

#[test]
fn model_path_uses_expected_filename() {
    let cache_dir = "/Users/someone/.cache/sage";
    assert!(
        config::get_model_path(cache_dir, &config::gemma_e2b_config())
            .ends_with("gemma-4-E2B-it-Q4_K_M.gguf")
    );
    assert!(
        config::get_model_path(cache_dir, &config::gemma_e4b_config())
            .ends_with("gemma-4-E4B-it-Q4_K_M.gguf")
    );
}

#[test]
fn config_file_path_points_at_json() {
    assert!(config::config_file_path("/Users/someone/.cache/sage").ends_with("config.json"));
}

#[test]
fn model_names_are_case_sensitive() {
    assert!(config::get_model_config("e2b").is_err());
    assert!(config::get_model_config("").is_err());
    assert!(config::get_model_config(" E2B").is_err());
}

#[test]
fn known_model_urls() {
    assert_eq!(
        config::get_model_config("E2B").unwrap().download_url,
        "https://models.r2-cf.mdev64.com/gemma4/gemma-4-E2B-it-Q4_K_M.gguf"
    );
    assert_eq!(
        config::get_model_config("E4B").unwrap().download_url,
        "https://models.r2-cf.mdev64.com/gemma4/gemma-4-E4B-it-Q4_K_M.gguf"
    );
}

#[test]
fn unknown_model_message() {
    match config::get_model_config("E9B") {
        Err(e) => {
            assert!(matches!(&e, ConfigError::UnknownModel(n) if n == "E9B"));
            assert_eq!(
                e.message(),
                "Unknown model 'E9B' in configuration. Run `sage --config` to fix it."
            );
        }
        Ok(_) => panic!("E9B is not a model"),
    }
}

#[test]
fn paths_are_joined_like_path_join() {
    assert_eq!(config::join("/home/u", ".cache/sage"), "/home/u/.cache/sage");
    assert_eq!(config::join("/home/u/", ".cache/sage"), "/home/u/.cache/sage");
    assert_eq!(config::join("", "config.json"), "config.json");
    assert_eq!(config::join("/home/u", "/etc/passwd"), "/etc/passwd");
    assert_eq!(config::get_cache_dir("/Users/ana"), "/Users/ana/.cache/sage");
    assert_eq!(
        config::config_file_path("/Users/ana/.cache/sage"),
        "/Users/ana/.cache/sage/config.json"
    );
    assert_eq!(
        config::get_model_path("/Users/ana/.cache/sage", &config::gemma_e2b_config()),
        "/Users/ana/.cache/sage/gemma-4-E2B-it-Q4_K_M.gguf"
    );
}

#[test]
fn missing_settings_give_nothing_silently() {
    let loaded = config::load_config_from(ConfigFile::Missing);
    assert!(loaded.config.is_none());
    assert!(loaded.warning.is_none());
}

#[test]
fn unreadable_settings_warn() {
    let loaded = config::load_config_from(ConfigFile::Unreadable("permission denied".to_string()));
    assert!(loaded.config.is_none());
    assert_eq!(
        loaded.warning.as_deref(),
        Some("Warning: could not read config (permission denied).")
    );
}

#[test]
fn invalid_settings_warn() {
    let loaded = config::load_config_from(ConfigFile::Invalid("expected value at line 1".to_string()));
    assert!(loaded.config.is_none());
    assert_eq!(
        loaded.warning.as_deref(),
        Some("Warning: config is invalid (expected value at line 1). Run `sage --config` to recreate it.")
    );
}

#[test]
fn parsed_settings_are_used() {
    let cfg = sample_config();
    let loaded = config::load_config_from(ConfigFile::Parsed(cfg.clone()));
    let got = loaded.config.unwrap();
    assert_eq!(got.model, cfg.model);
    assert_eq!(got.shell, cfg.shell);
    assert_eq!(got.show_hints, cfg.show_hints);
    assert_eq!(got.auto_copy, cfg.auto_copy);
    assert!(loaded.warning.is_none());
}
