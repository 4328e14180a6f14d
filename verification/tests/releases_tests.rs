use freenet_lib::releases::{
    app_repo, bypass_asset, bypass_download_message, bypass_release_repo, extract_version_from_tag,
    find_asset, latest_release_url, plan_bypass_download, plan_release_download,
    plan_tg_proxy_download, plan_zapret_download, recorded_version, release_infos,
    release_list_url, release_tag_url, service_repo, update_info, update_script, AssetRule,
    GitHubAsset, GitHubRelease,
};
use freenet_lib::services::ServiceKind;

fn asset(name: &str, url: &str) -> GitHubAsset {
    GitHubAsset { name: name.to_string(), browser_download_url: url.to_string() }
}

fn release(tag: &str, assets: Vec<GitHubAsset>) -> GitHubRelease {
    GitHubRelease { tag_name: tag.to_string(), assets }
}

#[test]
fn version_drops_leading_v() {
    assert_eq!(extract_version_from_tag("v1.2.3"), "1.2.3");
    assert_eq!(extract_version_from_tag("vv2"), "2");
    assert_eq!(extract_version_from_tag("1.0"), "1.0");
    assert_eq!(extract_version_from_tag(""), "");
    assert_eq!(extract_version_from_tag("version-7"), "ersion-7");
    assert_eq!(extract_version_from_tag("1.0v"), "1.0v");
}

#[test]
fn version_of_version_is_unchanged() {
    for tag in ["v1.2", "vvv3", "beta", "", "v"] {
        let once = extract_version_from_tag(tag);
        assert_eq!(extract_version_from_tag(&once), once);
        assert!(!once.starts_with('v'));
        assert!(tag.ends_with(once.as_str()));
    }
}

#[test]
fn recorded_version_is_trimmed() {
    assert_eq!(recorded_version("  1.2.3\r\n"), "1.2.3");
    assert_eq!(recorded_version(""), "");
}

#[test]
fn repos_of_services() {
    assert_eq!(service_repo("tg-ws-proxy"), Ok("Flowseal/tg-ws-proxy"));
    assert_eq!(service_repo("zapret-discord-youtube"), Ok("Flowseal/zapret-discord-youtube"));
    assert_eq!(service_repo("zapret"), Err("Unknown service: zapret".to_string()));
    assert_eq!(app_repo(), "impersonalll/FreeNet");
}

#[test]
fn release_addresses() {
    assert_eq!(
        latest_release_url("Flowseal/tg-ws-proxy"),
        "https://api.github.com/repos/Flowseal/tg-ws-proxy/releases/latest"
    );
    assert_eq!(
        release_list_url("a/b"),
        "https://api.github.com/repos/a/b/releases?per_page=20"
    );
    assert_eq!(
        release_tag_url("a/b", "v1.5"),
        "https://api.github.com/repos/a/b/releases/tags/v1.5"
    );
}

#[test]
fn asset_rules_pick_first_match() {
    let assets = vec![
        asset("readme.txt", "u0"),
        asset("tool-X86.zip", "u1"),
        asset("tool.zip", "u2"),
        asset("tool-x86_64.zip", "u3"),
    ];
    assert_eq!(find_asset(AssetRule::Zip, &assets), Some(1));
    assert_eq!(find_asset(AssetRule::ZipNotX86, &assets), Some(2));
    assert_eq!(find_asset(AssetRule::ZipX86_64, &assets), Some(3));
    assert_eq!(find_asset(AssetRule::TgProxyExe, &assets), None);
    let exes = vec![asset("FREENET-setup.exe", "s"), asset("FREENET.exe", "p")];
    assert_eq!(find_asset(AssetRule::PortableExe, &exes), Some(1));
}

#[test]
fn bypass_assets_fall_back_to_any_zip() {
    let only_x86 = vec![asset("goodbyedpi-0.2.3-x86.zip", "a")];
    assert_eq!(bypass_asset("goodbyedpi", &only_x86), Some(0));
    let both = vec![asset("byedpi-i686.zip", "a"), asset("byedpi-x86_64.zip", "b")];
    assert_eq!(bypass_asset("byedpi", &both), Some(1));
    assert_eq!(bypass_asset("zapret", &both), None);
    assert_eq!(bypass_asset("byedpi", &vec![asset("notes.md", "n")]), None);
}

#[test]
fn tg_proxy_plan_uses_the_windows_exe() {
    let rel = release(
        "v1.1.0",
        vec![asset("TgWsProxy_linux", "u1"), asset("TgWsProxy_windows.exe", "u2")],
    );
    let plan = plan_tg_proxy_download(&rel).unwrap();
    assert_eq!(plan.url, "u2");
    assert_eq!(plan.file_name, "TgWsProxy_windows.exe");
    assert_eq!(plan.version, "1.1.0");
    let none = release("v1", vec![asset("x.zip", "u")]);
    assert_eq!(
        plan_tg_proxy_download(&none),
        Err("Windows exe not found in release assets".to_string())
    );
}

#[test]
fn zapret_plan_names_the_archive_by_version() {
    let rel = release("1.9.0b", vec![asset("notes.txt", "n"), asset("zapret.zip", "z")]);
    let plan = plan_zapret_download(&rel).unwrap();
    assert_eq!(plan.url, "z");
    assert_eq!(plan.file_name, "zapret-1.9.0b.zip");
    assert_eq!(plan.version, "1.9.0b");
    let none = release("v2", vec![]);
    assert_eq!(plan_zapret_download(&none), Err("ZIP not found in release assets".to_string()));
}

#[test]
fn chosen_release_plans() {
    let rel = release("v3.0", vec![asset("a.zip", "za"), asset("TgWsProxy_windows.exe", "te")]);
    let (kind, plan) = plan_release_download("zapret-discord-youtube", &rel).unwrap();
    assert_eq!(kind, ServiceKind::Zapret);
    assert_eq!(plan.url, "za");
    assert_eq!(plan.file_name, "zapret-3.0.zip");
    let (kind, plan) = plan_release_download("tg-ws-proxy", &rel).unwrap();
    assert_eq!(kind, ServiceKind::TgProxy);
    assert_eq!(plan.url, "te");
    let empty = release("v3.0", vec![]);
    assert_eq!(
        plan_release_download("zapret-discord-youtube", &empty),
        Err("ZIP not found".to_string())
    );
    assert_eq!(
        plan_release_download("tg-ws-proxy", &empty),
        Err("Windows exe not found".to_string())
    );
    assert_eq!(plan_release_download("other", &rel), Err("Unknown service".to_string()));
}

#[test]
fn bypass_download_plans_and_messages() {
    let rel = release("v0.17", vec![asset("ciadpi-i686.zip", "a"), asset("ciadpi-x86_64.zip", "b")]);
    let plan = plan_bypass_download("byedpi", &rel).unwrap();
    assert_eq!(plan.url, "b");
    assert_eq!(plan.file_name, "byedpi.zip");
    assert_eq!(plan.version, "0.17");
    assert_eq!(
        plan_bypass_download("zapret", &rel),
        Err("No ZIP asset found in release".to_string())
    );
    assert_eq!(bypass_release_repo("goodbyedpi"), Ok("ValdikSS/GoodbyeDPI"));
    assert_eq!(bypass_release_repo("byedpi"), Ok("hufrea/byedpi"));
    assert_eq!(bypass_release_repo("zapret"), Ok("Flowseal/zapret-discord-youtube"));
    assert_eq!(bypass_release_repo("tg-ws-proxy"), Ok("Flowseal/tg-ws-proxy"));
    assert_eq!(
        latest_release_url(bypass_release_repo("goodbyedpi").unwrap()),
        "https://api.github.com/repos/ValdikSS/GoodbyeDPI/releases/latest"
    );
    assert_eq!(bypass_release_repo("nope"), Err("Unknown bypass service".to_string()));
    assert_eq!(
        bypass_download_message("byedpi", "0.17"),
        Ok("Downloaded ByeDPI v0.17".to_string())
    );
    assert_eq!(
        bypass_download_message("nope", "1"),
        Err("Unknown bypass service".to_string())
    );
}

#[test]
fn release_listing_keeps_twenty() {
    let releases: Vec<GitHubRelease> =
        (0..25).map(|i| release(&format!("v1.{}", i), vec![])).collect();
    let infos = release_infos(&releases);
    assert_eq!(infos.len(), 20);
    assert_eq!(infos[0].tag, "v1.0");
    assert_eq!(infos[0].version, "1.0");
    assert_eq!(infos[19].version, "1.19");
    assert_eq!(infos[5].date, "");
    assert_eq!(release_infos(&vec![]).len(), 0);
}

#[test]
fn update_check() {
    let same = release("v1.0.0", vec![asset("FREENET.exe", "p")]);
    let u = update_info("1.0.0", &same);
    assert!(!u.needs_update);
    assert_eq!(u.download_url, "");
    assert_eq!(u.latest_version, "1.0.0");
    assert_eq!(u.current_version, "1.0.0");
    let newer = release("v1.1.0", vec![asset("FREENET-setup.exe", "s"), asset("FREENET.exe", "p")]);
    let u = update_info("1.0.0", &newer);
    assert!(u.needs_update);
    assert_eq!(u.download_url, "p");
    let no_exe = release("v1.1.0", vec![asset("FREENET-setup.exe", "s")]);
    let u = update_info("1.0.0", &no_exe);
    assert!(u.needs_update);
    assert_eq!(u.download_url, "");
}

#[test]
fn update_script_text() {
    let s = update_script("C:\\app\\freenet.exe", "C:\\app\\freenet-update.exe");
    assert_eq!(
        s,
        "@echo off\ntimeout /t 2 /nobreak > nul\ndel /f /q \"C:\\app\\freenet.exe\"\nmove /y \"C:\\app\\freenet-update.exe\" \"C:\\app\\freenet.exe\"\nstart \"\" \"C:\\app\\freenet.exe\"\ndel /f /q \"%~f0\""
    );
}
