use freenet_lib::services::{download_target, start_target, ServiceKind};
use freenet_lib::types::AppStateWrapper;

#[test]
fn fresh_state_has_nothing() {
    let w = AppStateWrapper::new();
    assert_eq!(w.state.tg_proxy.name, "tg-ws-proxy");
    assert_eq!(w.state.zapret.name, "zapret-discord-youtube");
    assert!(!w.state.tg_proxy.running && !w.state.zapret.installed);
    assert_eq!(w.pids.get("tg_proxy"), None);
}

#[test]
fn service_names() {
    assert_eq!(start_target("tg_proxy"), Ok(ServiceKind::TgProxy));
    assert_eq!(start_target("zapret"), Ok(ServiceKind::Zapret));
    assert_eq!(start_target("tg-ws-proxy"), Err("Unknown service: tg-ws-proxy".to_string()));
    assert_eq!(download_target("tg-ws-proxy"), Ok(ServiceKind::TgProxy));
    assert_eq!(download_target("zapret-discord-youtube"), Ok(ServiceKind::Zapret));
    assert_eq!(download_target("zapret"), Err("Unknown service: zapret".to_string()));
}

#[test]
fn tg_proxy_start_then_stop() {
    let mut w = AppStateWrapper::new();
    let msg = w.record_tg_proxy_started(4242);
    assert_eq!(msg, "tg-ws-proxy started (PID: 4242)");
    assert!(w.state.tg_proxy.running);
    assert_eq!(w.pids.get("tg_proxy"), Some(4242));
    let (held, reply) = w.stop_service("tg_proxy");
    assert_eq!(held, Some(4242));
    assert_eq!(reply, Ok(("TgWsProxy_windows.exe", "tg-ws-proxy stopped".to_string())));
    assert!(!w.state.tg_proxy.running);
    assert_eq!(w.pids.get("tg_proxy"), None);
}

#[test]
fn stopping_unknown_service_still_forgets_its_process() {
    let mut w = AppStateWrapper::new();
    w.pids.insert("odd".to_string(), 9);
    let (held, reply) = w.stop_service("odd");
    assert_eq!(held, Some(9));
    assert_eq!(reply, Err("Unknown service: odd".to_string()));
    assert_eq!(w.pids.get("odd"), None);
    let (held, reply) = w.stop_service("zapret");
    assert_eq!(held, None);
    assert_eq!(reply, Ok(("winws", "zapret stopped".to_string())));
}

#[test]
fn zapret_start_tracks_the_live_process() {
    let mut w = AppStateWrapper::new();
    assert_eq!(w.record_zapret_started(100, true, Some(7)), Ok("zapret started (winws PID: 100)".to_string()));
    assert_eq!(w.pids.get("zapret"), Some(100));
    let mut w = AppStateWrapper::new();
    assert_eq!(w.record_zapret_started(100, false, Some(7)), Ok("zapret started (winws PID: 7)".to_string()));
    assert_eq!(w.pids.get("zapret"), Some(7));
    assert!(w.state.zapret.running);
    let mut w = AppStateWrapper::new();
    assert_eq!(
        w.record_zapret_started(100, false, None),
        Err("winws.exe not found after launch".to_string())
    );
    assert_eq!(w.pids.get("zapret"), None);
    assert!(!w.state.zapret.running);
}

#[test]
fn refresh_follows_live_processes() {
    let mut w = AppStateWrapper::new();
    w.record_tg_proxy_started(1);
    w.record_zapret_started(2, true, None).unwrap();
    let s = w.refresh_status(false, false, Some(55));
    assert!(!s.tg_proxy.running);
    assert!(s.zapret.running);
    assert_eq!(w.pids.get("tg_proxy"), None);
    assert_eq!(w.pids.get("zapret"), Some(55));
    let s = w.refresh_status(true, false, None);
    assert!(!s.zapret.running);
    assert_eq!(w.pids.get("zapret"), None);
    let mut w = AppStateWrapper::new();
    let s = w.refresh_status(false, false, Some(3));
    assert!(s.zapret.running);
    assert_eq!(w.pids.get("zapret"), Some(3));
    assert_eq!(s, w.state);
}

#[test]
fn stop_all_forgets_everything() {
    let mut w = AppStateWrapper::new();
    w.record_tg_proxy_started(1);
    w.record_zapret_started(2, true, None).unwrap();
    w.record_bypass_started("byedpi", 3);
    let (mut killed, msg) = w.stop_all();
    killed.sort();
    assert_eq!(killed, vec![1, 2, 3]);
    assert_eq!(msg, "All services stopped");
    assert!(!w.state.tg_proxy.running && !w.state.zapret.running);
    assert_eq!(w.pids.get("bypass_byedpi"), None);
}

#[test]
fn downloads_mark_installed() {
    let mut w = AppStateWrapper::new();
    assert_eq!(w.record_tg_proxy_downloaded("1.2".to_string()), "Downloaded tg-ws-proxy v1.2");
    assert!(w.state.tg_proxy.installed);
    assert_eq!(w.state.tg_proxy.installed_version, Some("1.2".to_string()));
    assert_eq!(w.state.tg_proxy.latest_version, Some("1.2".to_string()));
    assert_eq!(w.record_zapret_downloaded("9".to_string()), "Downloaded zapret v9");
    assert_eq!(w.state.zapret.latest_version, Some("9".to_string()));
    assert_eq!(
        w.record_release_installed(ServiceKind::Zapret, "8".to_string()),
        "Downloaded zapret v8"
    );
    assert_eq!(w.state.zapret.installed_version, Some("8".to_string()));
    assert_eq!(w.state.zapret.latest_version, Some("9".to_string()));
    assert_eq!(
        w.record_release_installed(ServiceKind::TgProxy, "0.5".to_string()),
        "Downloaded tg-ws-proxy v0.5"
    );
}

#[test]
fn bypass_start_and_stop_records() {
    let mut w = AppStateWrapper::new();
    assert_eq!(w.record_bypass_started("goodbyedpi", 77), "goodbyedpi started (PID: 77)");
    assert_eq!(w.pids.get("bypass_goodbyedpi"), Some(77));
    let (held, msg) = w.record_bypass_stopped("goodbyedpi");
    assert_eq!(held, Some(77));
    assert_eq!(msg, "goodbyedpi stopped");
    w.record_zapret_started(5, true, None).unwrap();
    let (held, msg) = w.record_bypass_stopped("zapret");
    assert_eq!(held, None);
    assert_eq!(msg, "zapret stopped");
    assert!(!w.state.zapret.running);
    assert_eq!(w.pids.get("zapret"), Some(5));
}
