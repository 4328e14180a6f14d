use vstd::prelude::*;

use crate::text::{chars_of, dec, decimal, extend, str_eq, string_of};
use crate::pids::values_listed;
use crate::types::{AppState, AppStateWrapper, ServiceStatus};

verus! {

/// The two classic services, started and stopped through the service API.
#[derive(Debug, Clone, Copy, PartialEq, Eq)]
pub enum ServiceKind {
    TgProxy,
    Zapret,
}

pub open spec fn with_running(s: ServiceStatus, running: bool) -> ServiceStatus {
    ServiceStatus { running, ..s }
}

/// A service after a release of version `v` was installed.
pub open spec fn with_install(s: ServiceStatus, v: String) -> ServiceStatus {
    ServiceStatus { installed: true, installed_version: Some(v), latest_version: Some(v), ..s }
}

/// A service after a chosen release of version `v` was installed.
pub open spec fn with_release(s: ServiceStatus, v: String) -> ServiceStatus {
    ServiceStatus { installed: true, installed_version: Some(v), ..s }
}

pub open spec fn set_tg_running(s: AppState, running: bool) -> AppState {
    AppState { tg_proxy: with_running(s.tg_proxy, running), ..s }
}

pub open spec fn set_zapret_running(s: AppState, running: bool) -> AppState {
    AppState { zapret: with_running(s.zapret, running), ..s }
}

/// `prefix`, the decimal form of `n`, then `suffix`.
pub open spec fn numbered(prefix: Seq<char>, n: nat, suffix: Seq<char>) -> Seq<char> {
    prefix + dec(n) + suffix
}

fn numbered_text(prefix: &str, n: u32, suffix: &str) -> (r: String)
    ensures
        r@ == numbered(prefix@, n as nat, suffix@),
{
    let mut m = chars_of(prefix);
    extend(&mut m, &decimal(n as u64));
    extend(&mut m, &chars_of(suffix));
    string_of(&m)
}

fn joined_text(a: &str, b: &str) -> (r: String)
    ensures
        r@ == a@ + b@,
{
    let mut m = chars_of(a);
    extend(&mut m, &chars_of(b));
    string_of(&m)
}

pub open spec fn unknown_service_spec(service: Seq<char>) -> Seq<char> {
    "Unknown service: "@ + service
}

fn unknown_service(service: &str) -> (r: String)
    ensures
        r@ == unknown_service_spec(service@),
{
    joined_text("Unknown service: ", service)
}

/// The service named by the start and stop requests ("tg_proxy", "zapret").
pub open spec fn start_kind_spec(service: Seq<char>) -> Option<ServiceKind> {
    if service == "tg_proxy"@ {
        Some(ServiceKind::TgProxy)
    } else if service == "zapret"@ {
        Some(ServiceKind::Zapret)
    } else {
        None
    }
}

/// The service named by the download and version requests
/// ("tg-ws-proxy", "zapret-discord-youtube").
pub open spec fn release_kind_spec(service: Seq<char>) -> Option<ServiceKind> {
    if service == "tg-ws-proxy"@ {
        Some(ServiceKind::TgProxy)
    } else if service == "zapret-discord-youtube"@ {
        Some(ServiceKind::Zapret)
    } else {
        None
    }
}

/// Which service a start request names; any other name is refused.
pub fn start_target(service: &str) -> (r: Result<ServiceKind, String>)
    ensures
        match r {
            Ok(k) => start_kind_spec(service@) == Some(k),
            Err(e) => start_kind_spec(service@) is None && e@ == unknown_service_spec(service@),
        },
{
    if str_eq(service, "tg_proxy") {
        Ok(ServiceKind::TgProxy)
    } else if str_eq(service, "zapret") {
        Ok(ServiceKind::Zapret)
    } else {
        Err(unknown_service(service))
    }
}

/// Which service a download request names; any other name is refused.
pub fn download_target(service: &str) -> (r: Result<ServiceKind, String>)
    ensures
        match r {
            Ok(k) => release_kind_spec(service@) == Some(k),
            Err(e) => release_kind_spec(service@) is None && e@ == unknown_service_spec(service@),
        },
{
    if str_eq(service, "tg-ws-proxy") {
        Ok(ServiceKind::TgProxy)
    } else if str_eq(service, "zapret-discord-youtube") {
        Ok(ServiceKind::Zapret)
    } else {
        Err(unknown_service(service))
    }
}

/// The image name killed when a service is stopped, and the reply.
pub open spec fn stop_spec(service: Seq<char>) -> Option<(Seq<char>, Seq<char>)> {
    if service == "tg_proxy"@ {
        Some(("TgWsProxy_windows.exe"@, "tg-ws-proxy stopped"@))
    } else if service == "zapret"@ {
        Some(("winws"@, "zapret stopped"@))
    } else {
        None
    }
}

/// The service state after a stop request for `service`.
pub open spec fn state_after_stop(s: AppState, service: Seq<char>) -> AppState {
    if service == "tg_proxy"@ {
        set_tg_running(s, false)
    } else if service == "zapret"@ {
        set_zapret_running(s, false)
    } else {
        s
    }
}

/// The held processes after a status refresh: a dead tg-ws-proxy is
/// forgotten; zapret is forgotten when neither its held process nor a
/// winws process lives, and follows the winws process when one lives.
pub open spec fn pids_after_refresh(
    p: Map<Seq<char>, u32>,
    tg_alive: bool,
    zapret_alive: bool,
    winws: Option<u32>,
) -> Map<Seq<char>, u32> {
    let p1 = if tg_alive {
        p
    } else {
        p.remove("tg_proxy"@)
    };
    if !(zapret_alive || winws is Some) {
        p1.remove("zapret"@)
    } else {
        match winws {
            Some(w) => p1.insert("zapret"@, w),
            None => p1,
        }
    }
}

/// The service state after a status refresh.
pub open spec fn state_after_refresh(
    s: AppState,
    tg_alive: bool,
    zapret_alive: bool,
    winws: Option<u32>,
) -> AppState {
    let s1 = if tg_alive {
        s
    } else {
        set_tg_running(s, false)
    };
    set_zapret_running(s1, zapret_alive || winws is Some)
}

/// The process that stands for zapret after a launch: the launched one while
/// it lives, else a winws process found by name.
pub open spec fn zapret_track_spec(spawned: u32, spawned_alive: bool, winws: Option<u32>) -> Option<
    u32,
> {
    if spawned_alive {
        Some(spawned)
    } else {
        winws
    }
}

impl AppStateWrapper {
    /// Brings the service state in line with the processes that live.
    /// `tg_alive` tells whether the process held under "tg_proxy" lives,
    /// `zapret_alive` whether the one held under "zapret" lives (false
    /// where none is held), and `winws` is a running winws process, if
    /// any. Gives back the new state.
    pub fn refresh_status(&mut self, tg_alive: bool, zapret_alive: bool, winws: Option<u32>) -> (r:
        AppState)
        ensures
            final(self).pids@ == pids_after_refresh(old(self).pids@, tg_alive, zapret_alive, winws),
            final(self).state == state_after_refresh(old(self).state, tg_alive, zapret_alive, winws),
            final(self).config == old(self).config,
            r == final(self).state,
    {
        if !tg_alive {
            self.pids.remove("tg_proxy");
            self.state.tg_proxy.running = false;
        }
        let alive = zapret_alive || winws.is_some();
        if !alive {
            self.pids.remove("zapret");
            self.state.zapret.running = false;
        } else {
            self.state.zapret.running = true;
            if let Some(w) = winws {
                self.pids.insert(string_of(&chars_of("zapret")), w);
            }
        }
        self.state.duplicate()
    }

    /// Handles a stop request: forgets the process held under `service`
    /// and gives it back to be killed, together with the image name to kill
    /// and the reply, or the refusal of an unknown service.
    pub fn stop_service(&mut self, service: &str) -> (r: (
        Option<u32>,
        Result<(&'static str, String), String>,
    ))
        ensures
            r.0 == (if old(self).pids@.contains_key(service@) {
                Some(old(self).pids@[service@])
            } else {
                None
            }),
            final(self).pids@ == old(self).pids@.remove(service@),
            final(self).state == state_after_stop(old(self).state, service@),
            final(self).config == old(self).config,
            match r.1 {
                Ok((image, msg)) => stop_spec(service@) == Some((image@, msg@)),
                Err(e) => stop_spec(service@) is None && e@ == unknown_service_spec(service@),
            },
    {
        let held = self.pids.remove(service);
        if str_eq(service, "tg_proxy") {
            self.state.tg_proxy.running = false;
            (held, Ok(("TgWsProxy_windows.exe", string_of(&chars_of("tg-ws-proxy stopped")))))
        } else if str_eq(service, "zapret") {
            self.state.zapret.running = false;
            (held, Ok(("winws", string_of(&chars_of("zapret stopped")))))
        } else {
            (held, Err(unknown_service(service)))
        }
    }

    /// Records that every service was stopped: both services are marked as
    /// not running and every held process is forgotten; gives back the
    /// processes to kill and the reply.
    pub fn stop_all(&mut self) -> (r: (Vec<u32>, String))
        ensures
            final(self).pids@ == Map::<Seq<char>, u32>::empty(),
            values_listed(old(self).pids@, r.0@),
            r.0@.len() == old(self).pids@.dom().len(),
            final(self).state == set_zapret_running(set_tg_running(old(self).state, false), false),
            final(self).config == old(self).config,
            r.1@ == "All services stopped"@,
    {
        let killed = self.pids.drain();
        self.state.tg_proxy.running = false;
        self.state.zapret.running = false;
        (killed, string_of(&chars_of("All services stopped")))
    }

    /// Records a started tg-ws-proxy process and gives back the reply.
    pub fn record_tg_proxy_started(&mut self, pid: u32) -> (r: String)
        ensures
            final(self).pids@ == old(self).pids@.insert("tg_proxy"@, pid),
            final(self).state == set_tg_running(old(self).state, true),
            final(self).config == old(self).config,
            r@ == numbered("tg-ws-proxy started (PID: "@, pid as nat, ")"@),
    {
        self.pids.insert(string_of(&chars_of("tg_proxy")), pid);
        self.state.tg_proxy.running = true;
        numbered_text("tg-ws-proxy started (PID: ", pid, ")")
    }

    /// Records a zapret launch. `spawned` is the launched process,
    /// `spawned_alive` whether it still lives after the start-up pause, and
    /// `winws` a winws process found by name. Fails, changing nothing, when
    /// neither stands for zapret.
    pub fn record_zapret_started(&mut self, spawned: u32, spawned_alive: bool, winws: Option<u32>) -> (r:
        Result<String, String>)
        ensures
            match zapret_track_spec(spawned, spawned_alive, winws) {
                Some(p) => {
                    &&& final(self).pids@ == old(self).pids@.insert("zapret"@, p)
                    &&& final(self).state == set_zapret_running(old(self).state, true)
                    &&& r matches Ok(m) && m@ == numbered("zapret started (winws PID: "@, p as nat, ")"@)
                },
                None => {
                    &&& final(self).pids@ == old(self).pids@
                    &&& final(self).state == old(self).state
                    &&& r matches Err(e) && e@ == "winws.exe not found after launch"@
                },
            },
            final(self).config == old(self).config,
    {
        let track = if spawned_alive {
            spawned
        } else {
            match winws {
                Some(w) => w,
                None => {
                    return Err(string_of(&chars_of("winws.exe not found after launch")));
                },
            }
        };
        self.pids.insert(string_of(&chars_of("zapret")), track);
        self.state.zapret.running = true;
        Ok(numbered_text("zapret started (winws PID: ", track, ")"))
    }

    /// Records an installed tg-ws-proxy release and gives back the reply.
    pub fn record_tg_proxy_downloaded(&mut self, version: String) -> (r: String)
        ensures
            final(self).state == (AppState {
                tg_proxy: with_install(old(self).state.tg_proxy, version),
                ..old(self).state
            }),
            final(self).pids@ == old(self).pids@,
            final(self).config == old(self).config,
            r@ == "Downloaded tg-ws-proxy v"@ + version@,
    {
        let msg = joined_text("Downloaded tg-ws-proxy v", version.as_str());
        self.state.tg_proxy.installed = true;
        self.state.tg_proxy.installed_version = Some(version.clone());
        self.state.tg_proxy.latest_version = Some(version);
        msg
    }

    /// Records an installed zapret release and gives back the reply.
    pub fn record_zapret_downloaded(&mut self, version: String) -> (r: String)
        ensures
            final(self).state == (AppState {
                zapret: with_install(old(self).state.zapret, version),
                ..old(self).state
            }),
            final(self).pids@ == old(self).pids@,
            final(self).config == old(self).config,
            r@ == "Downloaded zapret v"@ + version@,
    {
        let msg = joined_text("Downloaded zapret v", version.as_str());
        self.state.zapret.installed = true;
        self.state.zapret.installed_version = Some(version.clone());
        self.state.zapret.latest_version = Some(version);
        msg
    }

    /// Records a chosen release installed on request: the service is marked
    /// installed at `version`, its latest known version is left as it was.
    pub fn record_release_installed(&mut self, kind: ServiceKind, version: String) -> (r: String)
        ensures
            final(self).state == (match kind {
                ServiceKind::TgProxy => AppState {
                    tg_proxy: with_release(old(self).state.tg_proxy, version),
                    ..old(self).state
                },
                ServiceKind::Zapret => AppState {
                    zapret: with_release(old(self).state.zapret, version),
                    ..old(self).state
                },
            }),
            final(self).pids@ == old(self).pids@,
            final(self).config == old(self).config,
            r@ == (match kind {
                ServiceKind::TgProxy => "Downloaded tg-ws-proxy v"@,
                ServiceKind::Zapret => "Downloaded zapret v"@,
            }) + version@,
    {
        match kind {
            ServiceKind::TgProxy => {
                let msg = joined_text("Downloaded tg-ws-proxy v", version.as_str());
                self.state.tg_proxy.installed = true;
                self.state.tg_proxy.installed_version = Some(version);
                msg
            },
            ServiceKind::Zapret => {
                let msg = joined_text("Downloaded zapret v", version.as_str());
                self.state.zapret.installed = true;
                self.state.zapret.installed_version = Some(version);
                msg
            },
        }
    }

    /// Records a started GoodbyeDPI or ByeDPI process under "bypass_<key>"
    /// and gives back the reply.
    pub fn record_bypass_started(&mut self, key: &str, pid: u32) -> (r: String)
        ensures
            final(self).pids@ == old(self).pids@.insert("bypass_"@ + key@, pid),
            final(self).state == old(self).state,
            final(self).config == old(self).config,
            r@ == key@ + numbered(" started (PID: "@, pid as nat, ")"@),
    {
        self.pids.insert(joined_text("bypass_", key), pid);
        let mut m = chars_of(key);
        let tail = numbered_text(" started (PID: ", pid, ")");
        extend(&mut m, &chars_of(tail.as_str()));
        string_of(&m)
    }

    /// Records that the tool `key` was stopped: forgets the process held
    /// under "bypass_<key>" and gives it back to be killed, marks zapret or
    /// tg-ws-proxy as not running, and gives back the reply.
    pub fn record_bypass_stopped(&mut self, key: &str) -> (r: (Option<u32>, String))
        ensures
            r.0 == (if old(self).pids@.contains_key("bypass_"@ + key@) {
                Some(old(self).pids@["bypass_"@ + key@])
            } else {
                None
            }),
            final(self).pids@ == old(self).pids@.remove("bypass_"@ + key@),
            final(self).state == (if key@ == "zapret"@ {
                set_zapret_running(old(self).state, false)
            } else if key@ == "tg-ws-proxy"@ {
                set_tg_running(old(self).state, false)
            } else {
                old(self).state
            }),
            final(self).config == old(self).config,
            r.1@ == key@ + " stopped"@,
    {
        let name = joined_text("bypass_", key);
        let held = self.pids.remove(name.as_str());
        if str_eq(key, "zapret") {
            self.state.zapret.running = false;
        } else if str_eq(key, "tg-ws-proxy") {
            self.state.tg_proxy.running = false;
        }
        (held, joined_text(key, " stopped"))
    }
}

/// Stopping tg-ws-proxy right after it was started hands back the started
/// process, forgets it, and marks the service stopped.
pub proof fn law_tg_proxy_start_then_stop(s: AppState, p: Map<Seq<char>, u32>, pid: u32)
    ensures
        p.insert("tg_proxy"@, pid).contains_key("tg_proxy"@),
        p.insert("tg_proxy"@, pid)["tg_proxy"@] == pid,
        p.insert("tg_proxy"@, pid).remove("tg_proxy"@) == p.remove("tg_proxy"@),
        state_after_stop(set_tg_running(s, true), "tg_proxy"@) == set_tg_running(s, false),
        stop_spec("tg_proxy"@) is Some,
{
    assert(p.insert("tg_proxy"@, pid).remove("tg_proxy"@) =~= p.remove("tg_proxy"@));
}

/// Stopping zapret right after a launch that found its process hands back
/// that process, forgets it, and marks zapret stopped.
pub proof fn law_zapret_start_then_stop(
    s: AppState,
    p: Map<Seq<char>, u32>,
    spawned: u32,
    spawned_alive: bool,
    winws: Option<u32>,
)
    requires
        zapret_track_spec(spawned, spawned_alive, winws) is Some,
    ensures
        ({
            let q = zapret_track_spec(spawned, spawned_alive, winws)->0;
            &&& p.insert("zapret"@, q)["zapret"@] == q
            &&& p.insert("zapret"@, q).remove("zapret"@) == p.remove("zapret"@)
            &&& state_after_stop(set_zapret_running(s, true), "zapret"@) == set_zapret_running(s, false)
        }),
        stop_spec("zapret"@) is Some,
{
    reveal_strlit("zapret");
    reveal_strlit("tg_proxy");
    assert("zapret"@.len() != "tg_proxy"@.len());
    let q = zapret_track_spec(spawned, spawned_alive, winws)->0;
    assert(p.insert("zapret"@, q).remove("zapret"@) =~= p.remove("zapret"@));
}

/// A refresh never leaves zapret marked running without a live process:
/// it is running afterwards exactly when its tracked process or a winws
/// process lives, and a live winws process is what it tracks then.
pub proof fn law_refresh_matches_processes(
    s: AppState,
    p: Map<Seq<char>, u32>,
    tg_alive: bool,
    zapret_alive: bool,
    winws: Option<u32>,
)
    ensures
        state_after_refresh(s, tg_alive, zapret_alive, winws).zapret.running == (zapret_alive
            || winws is Some),
        winws matches Some(w) ==> pids_after_refresh(p, tg_alive, zapret_alive, winws)["zapret"@]
            == w,
        !(zapret_alive || winws is Some) ==> !pids_after_refresh(
            p,
            tg_alive,
            zapret_alive,
            winws,
        ).contains_key("zapret"@),
        !tg_alive ==> !state_after_refresh(s, tg_alive, zapret_alive, winws).tg_proxy.running,
        !tg_alive ==> !pids_after_refresh(p, tg_alive, zapret_alive, winws).contains_key(
            "tg_proxy"@,
        ),
{
    reveal_strlit("zapret");
    reveal_strlit("tg_proxy");
    assert("zapret"@.len() != "tg_proxy"@.len());
}

} // verus!
