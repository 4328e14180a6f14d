use freenet_lib::config::{
    apply_config_value, config_value, selected_hosts_providers, startup_actions, zapret_bat_name,
};
use freenet_lib::types::{AppConfig, HotkeyConfig};

#[test]
fn text_settings_read_back() {
    let mut c = AppConfig::default();
    for key in ["zapret_bat_file", "zapret_release", "custom_hosts_url", "selected_bypass"] {
        apply_config_value(&mut c, key, format!("value of {}", key));
        assert_eq!(config_value(&c, key), Some(format!("value of {}", key)));
    }
    assert_eq!(c.zapret_bat_file, Some("value of zapret_bat_file".to_string()));
}

#[test]
fn switches_read_back_as_words() {
    let mut c = AppConfig::default();
    apply_config_value(&mut c, "hosts_bypass", "true".to_string());
    assert_eq!(c.hosts_bypass, Some(true));
    assert_eq!(config_value(&c, "hosts_bypass"), Some("true".to_string()));
    apply_config_value(&mut c, "clipboard_enabled", "yes".to_string());
    assert_eq!(config_value(&c, "clipboard_enabled"), Some("false".to_string()));
    apply_config_value(&mut c, "media_keys_enabled", "TRUE".to_string());
    assert_eq!(c.media_keys_enabled, Some(false));
    apply_config_value(&mut c, "auto_accept_enabled", "true".to_string());
    assert_eq!(config_value(&c, "auto_accept_enabled"), Some("true".to_string()));
}

#[test]
fn download_dir_is_written_but_not_read() {
    let mut c = AppConfig::default();
    apply_config_value(&mut c, "download_dir", "D:\\dl".to_string());
    assert_eq!(c.download_dir, Some("D:\\dl".to_string()));
    assert_eq!(config_value(&c, "download_dir"), None);
}

#[test]
fn unknown_keys_change_nothing() {
    let mut c = AppConfig::default();
    apply_config_value(&mut c, "volume", "11".to_string());
    assert_eq!(c, AppConfig::default());
    assert_eq!(config_value(&c, "volume"), None);
    assert_eq!(config_value(&c, "zapret_bat_file"), None);
}

#[test]
fn startup_defaults() {
    let hk = HotkeyConfig {
        play_pause: Some("Ctrl+F5".to_string()),
        next_track: None,
        prev_track: None,
    };
    let mut c = AppConfig::default();
    c.hotkeys = Some(hk.clone());
    let s = startup_actions(&c);
    assert_eq!(s.hotkeys, Some(hk.clone()));
    assert!(!s.clipboard_watcher);
    c.media_keys_enabled = Some(false);
    c.clipboard_enabled = Some(true);
    let s = startup_actions(&c);
    assert_eq!(s.hotkeys, None);
    assert!(s.clipboard_watcher);
    assert_eq!(startup_actions(&AppConfig::default()).hotkeys, None);
}

#[test]
fn zapret_strategy_file_default() {
    let mut c = AppConfig::default();
    assert_eq!(zapret_bat_name(&c), "general.bat");
    c.zapret_bat_file = Some("general (ALT).bat".to_string());
    assert_eq!(zapret_bat_name(&c), "general (ALT).bat");
}

#[test]
fn hosts_providers_default_to_geohidedns() {
    let mut c = AppConfig::default();
    assert_eq!(selected_hosts_providers(&c), vec!["geohidedns".to_string()]);
    c.hosts_providers = Some(vec!["stevenblack".to_string(), "custom".to_string()]);
    assert_eq!(selected_hosts_providers(&c), vec!["stevenblack".to_string(), "custom".to_string()]);
    c.hosts_providers = Some(vec![]);
    assert_eq!(selected_hosts_providers(&c), Vec::<String>::new());
}
