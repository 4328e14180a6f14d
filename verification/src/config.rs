use vstd::prelude::*;

use crate::text::{chars_of, owned, same, strs_of};
use crate::types::{AppConfig, HotkeyConfig, opt_view};

verus! {

pub open spec fn bool_text(b: bool) -> Seq<char> {
    if b {
        "true"@
    } else {
        "false"@
    }
}

/// The settings after `key` is set to `value`: a text setting takes the value,
/// a switch is on exactly when the value is "true"; unknown keys change
/// nothing.
pub open spec fn config_after(c: AppConfig, key: Seq<char>, value: String) -> AppConfig {
    if key == "zapret_bat_file"@ {
        AppConfig { zapret_bat_file: Some(value), ..c }
    } else if key == "zapret_release"@ {
        AppConfig { zapret_release: Some(value), ..c }
    } else if key == "hosts_bypass"@ {
        AppConfig { hosts_bypass: Some(value@ == "true"@), ..c }
    } else if key == "download_dir"@ {
        AppConfig { download_dir: Some(value), ..c }
    } else if key == "media_keys_enabled"@ {
        AppConfig { media_keys_enabled: Some(value@ == "true"@), ..c }
    } else if key == "clipboard_enabled"@ {
        AppConfig { clipboard_enabled: Some(value@ == "true"@), ..c }
    } else if key == "custom_hosts_url"@ {
        AppConfig { custom_hosts_url: Some(value), ..c }
    } else if key == "auto_accept_enabled"@ {
        AppConfig { auto_accept_enabled: Some(value@ == "true"@), ..c }
    } else if key == "selected_bypass"@ {
        AppConfig { selected_bypass: Some(value), ..c }
    } else {
        c
    }
}

pub open spec fn flag_text(b: Option<bool>) -> Option<Seq<char>> {
    match b {
        Some(v) => Some(bool_text(v)),
        None => None,
    }
}

/// The value of setting `key` as text; switches read "true" or "false".
/// The download folder and unknown keys read as absent.
pub open spec fn config_value_spec(c: AppConfig, key: Seq<char>) -> Option<Seq<char>> {
    if key == "zapret_bat_file"@ {
        opt_view(c.zapret_bat_file)
    } else if key == "zapret_release"@ {
        opt_view(c.zapret_release)
    } else if key == "hosts_bypass"@ {
        flag_text(c.hosts_bypass)
    } else if key == "media_keys_enabled"@ {
        flag_text(c.media_keys_enabled)
    } else if key == "clipboard_enabled"@ {
        flag_text(c.clipboard_enabled)
    } else if key == "custom_hosts_url"@ {
        opt_view(c.custom_hosts_url)
    } else if key == "auto_accept_enabled"@ {
        flag_text(c.auto_accept_enabled)
    } else if key == "selected_bypass"@ {
        opt_view(c.selected_bypass)
    } else {
        None
    }
}

fn is_key(k: &Vec<char>, name: &str) -> (r: bool)
    ensures
        r == (k@ == name@),
{
    same(k, &chars_of(name))
}

/// Sets one setting from its text form.
pub fn apply_config_value(config: &mut AppConfig, key: &str, value: String)
    ensures
        *final(config) == config_after(*old(config), key@, value),
{
    let k = chars_of(key);
    let on = same(&chars_of(value.as_str()), &chars_of("true"));
    if is_key(&k, "zapret_bat_file") {
        config.zapret_bat_file = Some(value);
    } else if is_key(&k, "zapret_release") {
        config.zapret_release = Some(value);
    } else if is_key(&k, "hosts_bypass") {
        config.hosts_bypass = Some(on);
    } else if is_key(&k, "download_dir") {
        config.download_dir = Some(value);
    } else if is_key(&k, "media_keys_enabled") {
        config.media_keys_enabled = Some(on);
    } else if is_key(&k, "clipboard_enabled") {
        config.clipboard_enabled = Some(on);
    } else if is_key(&k, "custom_hosts_url") {
        config.custom_hosts_url = Some(value);
    } else if is_key(&k, "auto_accept_enabled") {
        config.auto_accept_enabled = Some(on);
    } else if is_key(&k, "selected_bypass") {
        config.selected_bypass = Some(value);
    }
}

fn flag(b: Option<bool>) -> (r: Option<String>)
    ensures
        opt_view(r) == flag_text(b),
{
    match b {
        Some(true) => Some(owned("true")),
        Some(false) => Some(owned("false")),
        None => None,
    }
}

fn copy_text(o: &Option<String>) -> (r: Option<String>)
    ensures
        opt_view(r) == opt_view(*o),
{
    match o {
        Some(s) => Some(s.clone()),
        None => None,
    }
}

/// Reads one setting in its text form.
pub fn config_value(config: &AppConfig, key: &str) -> (r: Option<String>)
    ensures
        opt_view(r) == config_value_spec(*config, key@),
{
    let k = chars_of(key);
    if is_key(&k, "zapret_bat_file") {
        copy_text(&config.zapret_bat_file)
    } else if is_key(&k, "zapret_release") {
        copy_text(&config.zapret_release)
    } else if is_key(&k, "hosts_bypass") {
        flag(config.hosts_bypass)
    } else if is_key(&k, "media_keys_enabled") {
        flag(config.media_keys_enabled)
    } else if is_key(&k, "clipboard_enabled") {
        flag(config.clipboard_enabled)
    } else if is_key(&k, "custom_hosts_url") {
        copy_text(&config.custom_hosts_url)
    } else if is_key(&k, "auto_accept_enabled") {
        flag(config.auto_accept_enabled)
    } else if is_key(&k, "selected_bypass") {
        copy_text(&config.selected_bypass)
    } else {
        None
    }
}

/// The setting names are pairwise different.
proof fn lemma_keys_distinct()
    ensures
        "zapret_bat_file"@ != "zapret_release"@,
        "zapret_bat_file"@ != "hosts_bypass"@,
        "zapret_bat_file"@ != "download_dir"@,
        "zapret_bat_file"@ != "media_keys_enabled"@,
        "zapret_bat_file"@ != "clipboard_enabled"@,
        "zapret_bat_file"@ != "custom_hosts_url"@,
        "zapret_bat_file"@ != "auto_accept_enabled"@,
        "zapret_bat_file"@ != "selected_bypass"@,
        "zapret_release"@ != "hosts_bypass"@,
        "zapret_release"@ != "download_dir"@,
        "zapret_release"@ != "media_keys_enabled"@,
        "zapret_release"@ != "clipboard_enabled"@,
        "zapret_release"@ != "custom_hosts_url"@,
        "zapret_release"@ != "auto_accept_enabled"@,
        "zapret_release"@ != "selected_bypass"@,
        "hosts_bypass"@ != "download_dir"@,
        "hosts_bypass"@ != "media_keys_enabled"@,
        "hosts_bypass"@ != "clipboard_enabled"@,
        "hosts_bypass"@ != "custom_hosts_url"@,
        "hosts_bypass"@ != "auto_accept_enabled"@,
        "hosts_bypass"@ != "selected_bypass"@,
        "download_dir"@ != "media_keys_enabled"@,
        "download_dir"@ != "clipboard_enabled"@,
        "download_dir"@ != "custom_hosts_url"@,
        "download_dir"@ != "auto_accept_enabled"@,
        "download_dir"@ != "selected_bypass"@,
        "media_keys_enabled"@ != "clipboard_enabled"@,
        "media_keys_enabled"@ != "custom_hosts_url"@,
        "media_keys_enabled"@ != "auto_accept_enabled"@,
        "media_keys_enabled"@ != "selected_bypass"@,
        "clipboard_enabled"@ != "custom_hosts_url"@,
        "clipboard_enabled"@ != "auto_accept_enabled"@,
        "clipboard_enabled"@ != "selected_bypass"@,
        "custom_hosts_url"@ != "auto_accept_enabled"@,
        "custom_hosts_url"@ != "selected_bypass"@,
        "auto_accept_enabled"@ != "selected_bypass"@,
{
    reveal_strlit("zapret_bat_file");
    reveal_strlit("zapret_release");
    reveal_strlit("hosts_bypass");
    reveal_strlit("download_dir");
    reveal_strlit("media_keys_enabled");
    reveal_strlit("clipboard_enabled");
    reveal_strlit("custom_hosts_url");
    reveal_strlit("auto_accept_enabled");
    reveal_strlit("selected_bypass");
    assert("zapret_bat_file"@.len() == 15);
    assert("zapret_release"@.len() == 14);
    assert("hosts_bypass"@.len() == 12);
    assert("download_dir"@.len() == 12);
    assert("media_keys_enabled"@.len() == 18);
    assert("clipboard_enabled"@.len() == 17);
    assert("custom_hosts_url"@.len() == 16);
    assert("auto_accept_enabled"@.len() == 19);
    assert("selected_bypass"@.len() == 15);
    assert("zapret_bat_file"@[0] != "selected_bypass"@[0]);
    assert("hosts_bypass"@[0] != "download_dir"@[0]);
}

/// What the application turns on when it starts.
#[derive(Debug, Clone, PartialEq, Eq)]
pub struct StartupActions {
    /// The key combinations to register, when media keys are on.
    pub hotkeys: Option<HotkeyConfig>,
    /// Whether the clipboard watcher starts.
    pub clipboard_watcher: bool,
}

/// Media keys are on unless switched off; the clipboard manager is off
/// unless switched on.
pub open spec fn startup_spec(c: AppConfig) -> StartupActions {
    StartupActions {
        hotkeys: if c.media_keys_enabled != Some(false) {
            c.hotkeys
        } else {
            None
        },
        clipboard_watcher: c.clipboard_enabled == Some(true),
    }
}

/// What to turn on at start-up, from the saved settings.
pub fn startup_actions(config: &AppConfig) -> (r: StartupActions)
    ensures
        r == startup_spec(*config),
{
    let media_keys = match config.media_keys_enabled {
        Some(b) => b,
        None => true,
    };
    let hotkeys = if media_keys {
        match &config.hotkeys {
            Some(h) => Some(h.duplicate()),
            None => None,
        }
    } else {
        None
    };
    let clipboard_watcher = match config.clipboard_enabled {
        Some(b) => b,
        None => false,
    };
    StartupActions { hotkeys, clipboard_watcher }
}

/// The strategy file zapret is started with: the chosen one, else
/// "general.bat".
pub fn zapret_bat_name(config: &AppConfig) -> (r: String)
    ensures
        r@ == match config.zapret_bat_file {
            Some(f) => f@,
            None => "general.bat"@,
        },
{
    match &config.zapret_bat_file {
        Some(f) => f.clone(),
        None => owned("general.bat"),
    }
}

/// The hosts providers in use: those chosen in the settings, or
/// "geohidedns" while no choice has been saved.
pub open spec fn selected_providers_spec(c: AppConfig) -> Seq<Seq<char>> {
    match c.hosts_providers {
        Some(ps) => strs_of(ps@),
        None => seq!["geohidedns"@],
    }
}

pub fn selected_hosts_providers(config: &AppConfig) -> (r: Vec<String>)
    ensures
        strs_of(r@) == selected_providers_spec(*config),
{
    let mut r: Vec<String> = Vec::new();
    match &config.hosts_providers {
        Some(ps) => {
            for i in 0..ps.len()
                invariant
                    r@.len() == i,
                    forall|k: int| 0 <= k < i ==> #[trigger] r@[k]@ == ps@[k]@,
            {
                r.push(ps[i].clone());
            }
            assert(strs_of(r@) =~= strs_of(ps@));
        },
        None => {
            r.push(owned("geohidedns"));
            assert(strs_of(r@) =~= seq!["geohidedns"@]);
        },
    }
    r
}

pub open spec fn text_setting(key: Seq<char>) -> bool {
    key == "zapret_bat_file"@ || key == "zapret_release"@ || key == "custom_hosts_url"@ || key
        == "selected_bypass"@
}

pub open spec fn switch_setting(key: Seq<char>) -> bool {
    key == "hosts_bypass"@ || key == "media_keys_enabled"@ || key == "clipboard_enabled"@ || key
        == "auto_accept_enabled"@
}

/// A text setting reads back the value it was set to.
pub proof fn law_text_setting_reads_back(c: AppConfig, key: Seq<char>, value: String)
    requires
        text_setting(key),
    ensures
        config_value_spec(config_after(c, key, value), key) == Some(value@),
{
    lemma_keys_distinct();
}

/// A switch reads back "true" when it was set from "true", and "false"
/// when it was set from anything else.
pub proof fn law_switch_setting_reads_back(c: AppConfig, key: Seq<char>, value: String)
    requires
        switch_setting(key),
    ensures
        config_value_spec(config_after(c, key, value), key) == Some(bool_text(value@ == "true"@)),
{
    lemma_keys_distinct();
}

} // verus!
