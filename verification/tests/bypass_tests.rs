use freenet_lib::bypass::{
    all_bypasses, already_running_message, bypass_exe_name, bypass_launch, bypass_metadata,
    bypass_pid_name, bypass_running_image, bypass_service_info, bypasses_to_stop,
    exclusive_bypasses, get_active_bypass, is_bypass_running, stop_bypass_image,
};
use freenet_lib::bypass::{bypass_route, BypassRoute};
use freenet_lib::procs::ProcessEntry;

fn proc_entry(pid: u32, exe: &str) -> ProcessEntry {
    ProcessEntry { pid, exe_file: exe.encode_utf16().collect() }
}

#[test]
fn bypass_tables() {
    assert_eq!(exclusive_bypasses(), vec!["zapret", "goodbyedpi", "byedpi"]);
    assert_eq!(all_bypasses(), vec!["zapret", "goodbyedpi", "byedpi", "tg-ws-proxy"]);
    assert_eq!(
        bypass_metadata("zapret"),
        Some(("zapret (winws)", "DPI bypass with customizable strategies (general.bat)", true))
    );
    assert_eq!(
        bypass_metadata("tg-ws-proxy"),
        Some(("tg-ws-proxy", "Telegram WebSocket proxy (runs alongside a bypass)", false))
    );
    assert_eq!(bypass_metadata("other"), None);
    assert_eq!(bypass_running_image("byedpi"), Some("ciadpi"));
    assert_eq!(bypass_running_image("tg-ws-proxy"), Some("TgWsProxy_windows"));
    assert_eq!(bypass_running_image("x"), None);
    assert_eq!(bypass_exe_name("goodbyedpi"), Some("goodbyedpi.exe"));
    assert_eq!(bypass_exe_name("zapret"), Some("winws.exe"));
    assert_eq!(bypass_exe_name(""), None);
}

#[test]
fn running_bypasses_from_process_list() {
    let procs = vec![proc_entry(10, "explorer.exe"), proc_entry(20, "GoodbyeDPI.exe"), proc_entry(30, "winws.exe")];
    assert!(is_bypass_running("zapret", &procs));
    assert!(is_bypass_running("goodbyedpi", &procs));
    assert!(!is_bypass_running("byedpi", &procs));
    assert!(!is_bypass_running("unknown", &procs));
    assert_eq!(get_active_bypass(&procs), Some("zapret".to_string()));
    assert_eq!(get_active_bypass(&vec![proc_entry(1, "ciadpi.exe")]), Some("byedpi".to_string()));
    assert_eq!(get_active_bypass(&vec![]), None);
}

#[test]
fn exclusive_bypasses_are_stopped_first() {
    let procs = vec![proc_entry(1, "winws.exe"), proc_entry(2, "ciadpi.exe"), proc_entry(3, "goodbyedpi.exe")];
    assert_eq!(bypasses_to_stop("goodbyedpi", &procs), vec!["zapret".to_string(), "byedpi".to_string()]);
    assert_eq!(bypasses_to_stop("zapret", &procs), vec!["goodbyedpi".to_string(), "byedpi".to_string()]);
    assert_eq!(bypasses_to_stop("tg-ws-proxy", &procs), Vec::<String>::new());
    assert_eq!(bypasses_to_stop("byedpi", &vec![proc_entry(2, "ciadpi.exe")]), Vec::<String>::new());
}

#[test]
fn hub_entries() {
    let info = bypass_service_info("byedpi", true, false, Some("0.17".to_string())).unwrap();
    assert_eq!(info.key, "byedpi");
    assert_eq!(info.name, "ByeDPI");
    assert_eq!(info.description, "DPI bypass, actively maintained fork of GoodbyeDPI");
    assert!(info.exclusive && info.installed && !info.running);
    assert_eq!(info.installed_version, Some("0.17".to_string()));
    assert_eq!(info.latest_version, Some("0.17".to_string()));
    assert_eq!(bypass_service_info("nope", true, true, None), None);
}

#[test]
fn launch_commands() {
    let (exe, args) = bypass_launch("goodbyedpi").unwrap();
    assert_eq!(exe, "goodbyedpi.exe");
    assert_eq!(
        args,
        vec![
            "-1",
            "--dpi-desync=fake,fakedsplit",
            "--dpi-desync-autottl=2",
            "--dpi-desync-fooling=md5sig",
            "--dpi-desync-fake-from-http=1",
            "--dpi-desync-ttl=3"
        ]
    );
    let (exe, args) = bypass_launch("byedpi").unwrap();
    assert_eq!(exe, "ciadpi.exe");
    assert_eq!(args.len(), 8);
    assert_eq!(args[3], "3+s");
    assert_eq!(bypass_launch("zapret"), Err("Unknown bypass service: zapret".to_string()));
}

#[test]
fn stop_images_and_messages() {
    assert_eq!(stop_bypass_image("byedpi"), Ok("ciadpi.exe"));
    assert_eq!(stop_bypass_image("tg-ws-proxy"), Ok("TgWsProxy_windows.exe"));
    assert_eq!(stop_bypass_image("x"), Err("Unknown bypass service: x".to_string()));
    assert_eq!(bypass_pid_name("goodbyedpi"), "bypass_goodbyedpi");
    assert_eq!(already_running_message("byedpi"), "byedpi is already running");
}

#[test]
fn routes_of_tools() {
    assert_eq!(bypass_route("zapret"), BypassRoute::Zapret);
    assert_eq!(bypass_route("tg-ws-proxy"), BypassRoute::TgProxy);
    assert_eq!(bypass_route("byedpi"), BypassRoute::Tool);
    assert_eq!(bypass_route("anything"), BypassRoute::Tool);
}
