use vstd::prelude::*;

use crate::pids::PidTable;
use crate::text::owned;

verus! {

/// Installation and run state of one managed service.
#[derive(Debug, Clone, PartialEq, Eq)]
pub struct ServiceStatus {
    pub name: String,
    pub installed: bool,
    pub installed_version: Option<String>,
    pub latest_version: Option<String>,
    pub running: bool,
}

/// State of the two classic services (tg-ws-proxy and zapret).
#[derive(Debug, Clone, PartialEq, Eq)]
pub struct AppState {
    pub tg_proxy: ServiceStatus,
    pub zapret: ServiceStatus,
}

/// User-captured key combinations for the three media actions.
#[derive(Debug, Clone, PartialEq, Eq)]
pub struct HotkeyConfig {
    pub play_pause: Option<String>,
    pub next_track: Option<String>,
    pub prev_track: Option<String>,
}

/// Persisted settings; every field is optional, absent means "not set".
#[derive(Debug, Clone, PartialEq, Eq)]
pub struct AppConfig {
    pub zapret_bat_file: Option<String>,
    pub zapret_release: Option<String>,
    pub hosts_bypass: Option<bool>,
    pub download_dir: Option<String>,
    pub hotkeys: Option<HotkeyConfig>,
    pub media_keys_enabled: Option<bool>,
    pub clipboard_enabled: Option<bool>,
    pub hosts_providers: Option<Vec<String>>,
    pub custom_hosts_url: Option<String>,
    pub auto_accept_enabled: Option<bool>,
    pub auto_accept_games: Option<Vec<String>>,
    pub selected_bypass: Option<String>,
}

/// Everything the application keeps in memory while it runs: service state,
/// the settings and the tracked processes.
pub struct AppStateWrapper {
    pub state: AppState,
    pub config: AppConfig,
    pub pids: PidTable,
}

/// One entry of the bypass hub.
#[derive(Debug, Clone, PartialEq, Eq)]
pub struct BypassServiceInfo {
    pub key: String,
    pub name: String,
    pub description: String,
    pub installed: bool,
    pub running: bool,
    pub exclusive: bool,
    pub installed_version: Option<String>,
    pub latest_version: Option<String>,
}

/// A source of hosts-file entries.
#[derive(Debug, Clone, PartialEq, Eq)]
pub struct HostsProvider {
    pub key: String,
    pub name: String,
    pub description: String,
    pub url: Option<String>,
    pub custom: bool,
}

/// Result of comparing the running version with the latest release.
#[derive(Debug, Clone, PartialEq, Eq)]
pub struct UpdateInfo {
    pub current_version: String,
    pub latest_version: String,
    pub needs_update: bool,
    pub download_url: String,
}

/// A game whose match-accept button can be clicked automatically.
#[derive(Debug, Clone, PartialEq, Eq)]
pub struct AutoAcceptGame {
    pub key: String,
    pub name: String,
    pub processes: Vec<String>,
}

/// A published release of a service.
#[derive(Debug, Clone, PartialEq, Eq)]
pub struct ReleaseInfo {
    pub tag: String,
    pub version: String,
    pub date: String,
}

pub open spec fn opt_view(o: Option<String>) -> Option<Seq<char>> {
    match o {
        Some(s) => Some(s@),
        None => None,
    }
}

/// A status that says nothing is installed or running yet.
pub open spec fn fresh_status(s: ServiceStatus, name: Seq<char>) -> bool {
    &&& s.name@ == name
    &&& !s.installed
    &&& s.installed_version is None
    &&& s.latest_version is None
    &&& !s.running
}

pub fn copy_opt_string(o: &Option<String>) -> (r: Option<String>)
    ensures
        r == *o,
{
    match o {
        Some(s) => Some(s.clone()),
        None => None,
    }
}

impl ServiceStatus {
    /// A field-for-field copy.
    pub fn duplicate(&self) -> (r: Self)
        ensures
            r == *self,
    {
        ServiceStatus {
            name: self.name.clone(),
            installed: self.installed,
            installed_version: copy_opt_string(&self.installed_version),
            latest_version: copy_opt_string(&self.latest_version),
            running: self.running,
        }
    }

    fn fresh(name: &str) -> (r: Self)
        ensures
            fresh_status(r, name@),
    {
        ServiceStatus {
            name: owned(name),
            installed: false,
            installed_version: None,
            latest_version: None,
            running: false,
        }
    }
}

impl AppState {
    /// A field-for-field copy.
    pub fn duplicate(&self) -> (r: Self)
        ensures
            r == *self,
    {
        AppState { tg_proxy: self.tg_proxy.duplicate(), zapret: self.zapret.duplicate() }
    }
}

impl Default for AppState {
    fn default() -> (r: Self)
        ensures
            fresh_status(r.tg_proxy, "tg-ws-proxy"@),
            fresh_status(r.zapret, "zapret-discord-youtube"@),
    {
        AppState {
            tg_proxy: ServiceStatus::fresh("tg-ws-proxy"),
            zapret: ServiceStatus::fresh("zapret-discord-youtube"),
        }
    }
}

impl HotkeyConfig {
    /// A field-for-field copy.
    pub fn duplicate(&self) -> (r: Self)
        ensures
            r == *self,
    {
        HotkeyConfig {
            play_pause: copy_opt_string(&self.play_pause),
            next_track: copy_opt_string(&self.next_track),
            prev_track: copy_opt_string(&self.prev_track),
        }
    }
}

impl Default for HotkeyConfig {
    fn default() -> (r: Self)
        ensures
            r.play_pause is None,
            r.next_track is None,
            r.prev_track is None,
    {
        HotkeyConfig { play_pause: None, next_track: None, prev_track: None }
    }
}

pub open spec fn config_is_empty(c: AppConfig) -> bool {
    &&& c.zapret_bat_file is None
    &&& c.zapret_release is None
    &&& c.hosts_bypass is None
    &&& c.download_dir is None
    &&& c.hotkeys is None
    &&& c.media_keys_enabled is None
    &&& c.clipboard_enabled is None
    &&& c.hosts_providers is None
    &&& c.custom_hosts_url is None
    &&& c.auto_accept_enabled is None
    &&& c.auto_accept_games is None
    &&& c.selected_bypass is None
}

impl Default for AppConfig {
    fn default() -> (r: Self)
        ensures
            config_is_empty(r),
    {
        AppConfig {
            zapret_bat_file: None,
            zapret_release: None,
            hosts_bypass: None,
            download_dir: None,
            hotkeys: None,
            media_keys_enabled: None,
            clipboard_enabled: None,
            hosts_providers: None,
            custom_hosts_url: None,
            auto_accept_enabled: None,
            auto_accept_games: None,
            selected_bypass: None,
        }
    }
}

impl AppStateWrapper {
    /// The state the application starts with: nothing installed or running,
    /// empty settings, no tracked process.
    pub fn new() -> (r: Self)
        ensures
            fresh_status(r.state.tg_proxy, "tg-ws-proxy"@),
            fresh_status(r.state.zapret, "zapret-discord-youtube"@),
            config_is_empty(r.config),
            r.pids@ == Map::<Seq<char>, u32>::empty(),
    {
        AppStateWrapper { state: AppState::default(), config: AppConfig::default(), pids: PidTable::new() }
    }
}

} // verus!
