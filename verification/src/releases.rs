use vstd::prelude::*;

use crate::bypass::metadata_spec;
use crate::bypass::bypass_metadata;
use crate::services::{release_kind_spec, unknown_service_spec, ServiceKind};
use crate::text::{
    chars_of, contains, ends_with, extend, has_infix, has_suffix, lower_chars, lowercase_of,
    slice_chars, str_eq, string_of, trim, trim_chars,
};
use crate::types::{ReleaseInfo, UpdateInfo};

verus! {

/// One downloadable file of a published release.
#[derive(Debug, Clone, PartialEq, Eq)]
pub struct GitHubAsset {
    pub name: String,
    pub browser_download_url: String,
}

/// A published release: its tag and its files, in the order the listing
/// gives them.
#[derive(Debug, Clone, PartialEq, Eq)]
pub struct GitHubRelease {
    pub tag_name: String,
    pub assets: Vec<GitHubAsset>,
}

// ---------------------------------------------------------------------------
// Versions
// ---------------------------------------------------------------------------

/// `s` without its leading `v` characters.
pub open spec fn strip_leading_v(s: Seq<char>) -> Seq<char>
    decreases s.len(),
{
    if s.len() > 0 && s[0] == 'v' {
        strip_leading_v(s.drop_first())
    } else {
        s
    }
}

/// The version named by a release tag: the tag without its leading `v`s.
pub fn extract_version_from_tag(tag: &str) -> (r: String)
    ensures
        r@ == strip_leading_v(tag@),
{
    let t = chars_of(tag);
    let mut i: usize = 0;
    assert(t@.skip(0) =~= t@);
    while i < t.len() && t[i] == 'v'
        invariant
            i <= t@.len(),
            strip_leading_v(t@.skip(i as int)) == strip_leading_v(t@),
        decreases t.len() - i,
    {
        assert(t@.skip(i as int).drop_first() =~= t@.skip(i + 1));
        i += 1;
    }
    let rest = slice_chars(&t, i, t.len());
    assert(rest@ =~= t@.skip(i as int));
    string_of(&rest)
}

/// A version never starts with `v`.
pub proof fn law_version_has_no_leading_v(tag: Seq<char>)
    ensures
        strip_leading_v(tag).len() == 0 || strip_leading_v(tag)[0] != 'v',
    decreases tag.len(),
{
    if tag.len() > 0 && tag[0] == 'v' {
        law_version_has_no_leading_v(tag.drop_first());
    }
}

/// Taking the version of a version changes nothing.
pub proof fn law_version_idempotent(tag: Seq<char>)
    ensures
        strip_leading_v(strip_leading_v(tag)) == strip_leading_v(tag),
{
    law_version_has_no_leading_v(tag);
}

/// The tag is the version with some `v`s before it.
pub proof fn law_version_is_suffix_of_tag(tag: Seq<char>)
    ensures
        strip_leading_v(tag).len() <= tag.len(),
        tag.skip(tag.len() - strip_leading_v(tag).len()) == strip_leading_v(tag),
        forall|i: int| 0 <= i < tag.len() - strip_leading_v(tag).len() ==> tag[i] == 'v',
    decreases tag.len(),
{
    if tag.len() > 0 && tag[0] == 'v' {
        let t = tag.drop_first();
        law_version_is_suffix_of_tag(t);
        assert(tag.skip(tag.len() - strip_leading_v(tag).len()) =~= t.skip(
            t.len() - strip_leading_v(t).len(),
        ));
        assert forall|i: int| 0 <= i < tag.len() - strip_leading_v(tag).len() implies tag[i]
            == 'v' by {
            if i > 0 {
                assert(tag[i] == t[i - 1]);
            }
        }
    } else {
        assert(tag.skip(0) =~= tag);
    }
}

/// The version recorded in a service's version file: its trimmed text.
pub fn recorded_version(content: &str) -> (r: String)
    ensures
        r@ == trim(content@),
{
    string_of(&trim_chars(&chars_of(content)))
}

// ---------------------------------------------------------------------------
// Repositories and addresses
// ---------------------------------------------------------------------------

/// The repository that publishes a service's releases.
pub open spec fn repo_spec(service: Seq<char>) -> Option<Seq<char>> {
    match release_kind_spec(service) {
        Some(ServiceKind::TgProxy) => Some("Flowseal/tg-ws-proxy"@),
        Some(ServiceKind::Zapret) => Some("Flowseal/zapret-discord-youtube"@),
        None => None,
    }
}

/// The repository of "tg-ws-proxy" or "zapret-discord-youtube"; any other
/// service is refused.
pub fn service_repo(service: &str) -> (r: Result<&'static str, String>)
    ensures
        match r {
            Ok(repo) => repo_spec(service@) == Some(repo@),
            Err(e) => repo_spec(service@) is None && e@ == unknown_service_spec(service@),
        },
{
    if str_eq(service, "tg-ws-proxy") {
        Ok("Flowseal/tg-ws-proxy")
    } else if str_eq(service, "zapret-discord-youtube") {
        Ok("Flowseal/zapret-discord-youtube")
    } else {
        let mut m = chars_of("Unknown service: ");
        extend(&mut m, &chars_of(service));
        Err(string_of(&m))
    }
}

/// The repository of this application itself.
pub open spec fn app_repo_spec() -> Seq<char> {
    "impersonalll/FreeNet"@
}

pub fn app_repo() -> (r: &'static str)
    ensures
        r@ == app_repo_spec(),
{
    "impersonalll/FreeNet"
}

pub open spec fn api_base() -> Seq<char> {
    "https://api.github.com/repos/"@
}

fn address(repo: &str, tail: &str, last: &str) -> (r: String)
    ensures
        r@ == api_base() + repo@ + tail@ + last@,
{
    let mut m = chars_of("https://api.github.com/repos/");
    extend(&mut m, &chars_of(repo));
    extend(&mut m, &chars_of(tail));
    extend(&mut m, &chars_of(last));
    string_of(&m)
}

/// The address of a repository's latest release.
pub fn latest_release_url(repo: &str) -> (r: String)
    ensures
        r@ == api_base() + repo@ + "/releases/latest"@,
{
    let r = address(repo, "/releases/latest", "");
    proof {
        reveal_strlit("");
    }
    assert(r@ =~= api_base() + repo@ + "/releases/latest"@);
    r
}

/// The address of a repository's twenty most recent releases.
pub fn release_list_url(repo: &str) -> (r: String)
    ensures
        r@ == api_base() + repo@ + "/releases?per_page=20"@,
{
    let r = address(repo, "/releases?per_page=20", "");
    proof {
        reveal_strlit("");
    }
    assert(r@ =~= api_base() + repo@ + "/releases?per_page=20"@);
    r
}

/// The address of the release of a repository tagged `tag`.
pub fn release_tag_url(repo: &str, tag: &str) -> (r: String)
    ensures
        r@ == api_base() + repo@ + "/releases/tags/"@ + tag@,
{
    address(repo, "/releases/tags/", tag)
}

// ---------------------------------------------------------------------------
// Choosing a file of a release
// ---------------------------------------------------------------------------

/// Which file of a release is wanted.
#[derive(Debug, Clone, Copy, PartialEq, Eq)]
pub enum AssetRule {
    /// The tg-ws-proxy Windows executable, by its exact name.
    TgProxyExe,
    /// Any zip archive.
    Zip,
    /// A zip archive whose lower-cased name does not mention "x86".
    ZipNotX86,
    /// A zip archive whose name mentions "x86_64".
    ZipX86_64,
    /// An executable that is not an installer ("setup").
    PortableExe,
}

pub open spec fn rule_holds(rule: AssetRule, name: Seq<char>) -> bool {
    match rule {
        AssetRule::TgProxyExe => name == "TgWsProxy_windows.exe"@,
        AssetRule::Zip => ends_with(name, ".zip"@),
        AssetRule::ZipNotX86 => ends_with(name, ".zip"@) && !contains(lowercase_of(name), "x86"@),
        AssetRule::ZipX86_64 => contains(name, "x86_64"@) && ends_with(name, ".zip"@),
        AssetRule::PortableExe => ends_with(name, ".exe"@) && !contains(name, "setup"@),
    }
}

pub open spec fn asset_names(assets: Seq<GitHubAsset>) -> Seq<Seq<char>> {
    assets.map_values(|a: GitHubAsset| a.name@)
}

/// The position of the first file from position `i` on that `rule` wants.
pub open spec fn first_from(rule: AssetRule, names: Seq<Seq<char>>, i: int) -> Option<int>
    decreases names.len() - i,
{
    if i < 0 || i >= names.len() {
        None
    } else if rule_holds(rule, names[i]) {
        Some(i)
    } else {
        first_from(rule, names, i + 1)
    }
}

/// The position of the first file of `names` that `rule` wants.
pub open spec fn first_index(rule: AssetRule, names: Seq<Seq<char>>) -> Option<int> {
    first_from(rule, names, 0)
}

/// `r` is the first file of `names` that `rule` wants, or there is none.
pub open spec fn first_wanted(rule: AssetRule, names: Seq<Seq<char>>, r: Option<usize>) -> bool {
    match r {
        Some(i) => {
            &&& i < names.len()
            &&& rule_holds(rule, names[i as int])
            &&& forall|j: int| 0 <= j < i ==> !rule_holds(rule, #[trigger] names[j])
        },
        None => forall|j: int| 0 <= j < names.len() ==> !rule_holds(rule, #[trigger] names[j]),
    }
}

fn wanted(rule: AssetRule, name: &str) -> (r: bool)
    ensures
        r == rule_holds(rule, name@),
{
    let n = chars_of(name);
    match rule {
        AssetRule::TgProxyExe => str_eq(name, "TgWsProxy_windows.exe"),
        AssetRule::Zip => has_suffix(&n, &chars_of(".zip")),
        AssetRule::ZipNotX86 => has_suffix(&n, &chars_of(".zip")) && !has_infix(
            &lower_chars(&n),
            &chars_of("x86"),
        ),
        AssetRule::ZipX86_64 => has_infix(&n, &chars_of("x86_64")) && has_suffix(
            &n,
            &chars_of(".zip"),
        ),
        AssetRule::PortableExe => has_suffix(&n, &chars_of(".exe")) && !has_infix(
            &n,
            &chars_of("setup"),
        ),
    }
}

/// The position of the first file that `rule` wants.
pub fn find_asset(rule: AssetRule, assets: &Vec<GitHubAsset>) -> (r: Option<usize>)
    ensures
        first_wanted(rule, asset_names(assets@), r),
        match r {
            Some(i) => first_index(rule, asset_names(assets@)) == Some(i as int),
            None => first_index(rule, asset_names(assets@)) is None,
        },
{
    let ghost names = asset_names(assets@);
    for i in 0..assets.len()
        invariant
            names == asset_names(assets@),
            forall|j: int| 0 <= j < i ==> !rule_holds(rule, #[trigger] names[j]),
            first_from(rule, names, i as int) == first_index(rule, names),
    {
        if wanted(rule, assets[i].name.as_str()) {
            return Some(i);
        }
    }
    None
}

/// The file of a GoodbyeDPI or ByeDPI release that is installed: the
/// preferred archive, else any zip archive. Other tools have none.
pub open spec fn bypass_index(key: Seq<char>, names: Seq<Seq<char>>) -> Option<int> {
    let preferred = if key == "goodbyedpi"@ {
        Some(AssetRule::ZipNotX86)
    } else if key == "byedpi"@ {
        Some(AssetRule::ZipX86_64)
    } else {
        None
    };
    match preferred {
        Some(rule) => match first_index(rule, names) {
            Some(i) => Some(i),
            None => first_index(AssetRule::Zip, names),
        },
        None => None,
    }
}

pub fn bypass_asset(key: &str, assets: &Vec<GitHubAsset>) -> (r: Option<usize>)
    ensures
        match r {
            Some(i) => i < assets@.len() && bypass_index(key@, asset_names(assets@)) == Some(i as int),
            None => bypass_index(key@, asset_names(assets@)) is None,
        },
{
    let rule = if str_eq(key, "goodbyedpi") {
        AssetRule::ZipNotX86
    } else if str_eq(key, "byedpi") {
        AssetRule::ZipX86_64
    } else {
        return None;
    };
    match find_asset(rule, assets) {
        Some(i) => Some(i),
        None => find_asset(AssetRule::Zip, assets),
    }
}

// ---------------------------------------------------------------------------
// Download plans
// ---------------------------------------------------------------------------

/// What to fetch to install a release: the file's address, the name it is
/// saved under and the version it holds.
#[derive(Debug, Clone, PartialEq, Eq)]
pub struct DownloadPlan {
    pub url: String,
    pub file_name: String,
    pub version: String,
}

/// The plan that fetches asset `i` of `rel`, saved as `file`.
pub open spec fn plan_of(p: DownloadPlan, rel: GitHubRelease, i: int, file: Seq<char>) -> bool {
    &&& 0 <= i < rel.assets@.len()
    &&& p.url@ == rel.assets@[i].browser_download_url@
    &&& p.file_name@ == file
    &&& p.version@ == strip_leading_v(rel.tag_name@)
}

fn plan_for(rel: &GitHubRelease, i: usize, file: String) -> (p: DownloadPlan)
    requires
        i < rel.assets@.len(),
    ensures
        plan_of(p, *rel, i as int, file@),
{
    DownloadPlan {
        url: rel.assets[i].browser_download_url.clone(),
        file_name: file,
        version: extract_version_from_tag(rel.tag_name.as_str()),
    }
}

fn text(s: &str) -> (r: String)
    ensures
        r@ == s@,
{
    string_of(&chars_of(s))
}

/// The outcome of a download plan: the plan fetching the first file that
/// `rule` wants, saved as `file`, or `missing` when the release has none.
pub open spec fn planned(
    r: Result<DownloadPlan, String>,
    rel: GitHubRelease,
    rule: AssetRule,
    file: Seq<char>,
    missing: Seq<char>,
) -> bool {
    match r {
        Ok(p) => first_index(rule, asset_names(rel.assets@)) matches Some(i) && plan_of(p, rel, i, file),
        Err(e) => first_index(rule, asset_names(rel.assets@)) is None && e@ == missing,
    }
}

/// The plan for installing the latest tg-ws-proxy release.
pub fn plan_tg_proxy_download(rel: &GitHubRelease) -> (r: Result<DownloadPlan, String>)
    ensures
        planned(
            r,
            *rel,
            AssetRule::TgProxyExe,
            "TgWsProxy_windows.exe"@,
            "Windows exe not found in release assets"@,
        ),
{
    match find_asset(AssetRule::TgProxyExe, &rel.assets) {
        Some(i) => {
            let p = plan_for(rel, i, text("TgWsProxy_windows.exe"));
            Ok(p)
        },
        None => Err(text("Windows exe not found in release assets")),
    }
}

/// The archive name a zapret release is saved under.
pub open spec fn zapret_zip_spec(version: Seq<char>) -> Seq<char> {
    "zapret-"@ + version + ".zip"@
}

fn zapret_zip_name(tag: &str) -> (r: String)
    ensures
        r@ == zapret_zip_spec(strip_leading_v(tag@)),
{
    let v = extract_version_from_tag(tag);
    let mut m = chars_of("zapret-");
    extend(&mut m, &chars_of(v.as_str()));
    extend(&mut m, &chars_of(".zip"));
    string_of(&m)
}

/// The plan for installing the latest zapret release.
pub fn plan_zapret_download(rel: &GitHubRelease) -> (r: Result<DownloadPlan, String>)
    ensures
        planned(
            r,
            *rel,
            AssetRule::Zip,
            zapret_zip_spec(strip_leading_v(rel.tag_name@)),
            "ZIP not found in release assets"@,
        ),
{
    match find_asset(AssetRule::Zip, &rel.assets) {
        Some(i) => {
            let p = plan_for(rel, i, zapret_zip_name(rel.tag_name.as_str()));
            Ok(p)
        },
        None => Err(text("ZIP not found in release assets")),
    }
}

/// The plan for installing a chosen release of "zapret-discord-youtube" or
/// "tg-ws-proxy"; any other service is refused with "Unknown service".
pub fn plan_release_download(service: &str, rel: &GitHubRelease) -> (r: Result<
    (ServiceKind, DownloadPlan),
    String,
>)
    ensures
        match release_kind_spec(service@) {
            Some(ServiceKind::Zapret) => match r {
                Ok((k, p)) => k == ServiceKind::Zapret && planned(
                    Ok(p),
                    *rel,
                    AssetRule::Zip,
                    zapret_zip_spec(strip_leading_v(rel.tag_name@)),
                    "ZIP not found"@,
                ),
                Err(e) => planned(
                    Err(e),
                    *rel,
                    AssetRule::Zip,
                    zapret_zip_spec(strip_leading_v(rel.tag_name@)),
                    "ZIP not found"@,
                ),
            },
            Some(ServiceKind::TgProxy) => match r {
                Ok((k, p)) => k == ServiceKind::TgProxy && planned(
                    Ok(p),
                    *rel,
                    AssetRule::TgProxyExe,
                    "TgWsProxy_windows.exe"@,
                    "Windows exe not found"@,
                ),
                Err(e) => planned(
                    Err(e),
                    *rel,
                    AssetRule::TgProxyExe,
                    "TgWsProxy_windows.exe"@,
                    "Windows exe not found"@,
                ),
            },
            None => r matches Err(e) && e@ == "Unknown service"@,
        },
{
    proof {
        reveal_strlit("zapret-discord-youtube");
        reveal_strlit("tg-ws-proxy");
        assert("zapret-discord-youtube"@.len() != "tg-ws-proxy"@.len());
    }
    if str_eq(service, "zapret-discord-youtube") {
        match find_asset(AssetRule::Zip, &rel.assets) {
            Some(i) => {
                let p = plan_for(rel, i, zapret_zip_name(rel.tag_name.as_str()));
                Ok((ServiceKind::Zapret, p))
            },
            None => Err(text("ZIP not found")),
        }
    } else if str_eq(service, "tg-ws-proxy") {
        match find_asset(AssetRule::TgProxyExe, &rel.assets) {
            Some(i) => {
                let p = plan_for(rel, i, text("TgWsProxy_windows.exe"));
                Ok((ServiceKind::TgProxy, p))
            },
            None => Err(text("Windows exe not found")),
        }
    } else {
        Err(text("Unknown service"))
    }
}

/// The repository that publishes the releases of a tool of the hub.
pub open spec fn tool_repo_spec(key: Seq<char>) -> Option<Seq<char>> {
    if key == "zapret"@ {
        Some("Flowseal/zapret-discord-youtube"@)
    } else if key == "goodbyedpi"@ {
        Some("ValdikSS/GoodbyeDPI"@)
    } else if key == "byedpi"@ {
        Some("hufrea/byedpi"@)
    } else if key == "tg-ws-proxy"@ {
        Some("Flowseal/tg-ws-proxy"@)
    } else {
        None
    }
}

/// The repository a tool's latest release is looked up in; unknown tools
/// are refused.
pub fn bypass_release_repo(key: &str) -> (r: Result<&'static str, String>)
    ensures
        match r {
            Ok(repo) => tool_repo_spec(key@) == Some(repo@),
            Err(e) => tool_repo_spec(key@) is None && e@ == "Unknown bypass service"@,
        },
        r is Ok <==> metadata_spec(key@) is Some,
{
    if str_eq(key, "zapret") {
        Ok("Flowseal/zapret-discord-youtube")
    } else if str_eq(key, "goodbyedpi") {
        Ok("ValdikSS/GoodbyeDPI")
    } else if str_eq(key, "byedpi") {
        Ok("hufrea/byedpi")
    } else if str_eq(key, "tg-ws-proxy") {
        Ok("Flowseal/tg-ws-proxy")
    } else {
        Err(text("Unknown bypass service"))
    }
}

/// The plan for installing the latest release of GoodbyeDPI or ByeDPI,
/// saved as "<key>.zip".
pub fn plan_bypass_download(key: &str, rel: &GitHubRelease) -> (r: Result<DownloadPlan, String>)
    ensures
        match r {
            Ok(p) => bypass_index(key@, asset_names(rel.assets@)) matches Some(i) && plan_of(
                p,
                *rel,
                i,
                key@ + ".zip"@,
            ),
            Err(e) => bypass_index(key@, asset_names(rel.assets@)) is None && e@
                == "No ZIP asset found in release"@,
        },
{
    match bypass_asset(key, &rel.assets) {
        Some(i) => {
            let mut m = chars_of(key);
            extend(&mut m, &chars_of(".zip"));
            let p = plan_for(rel, i, string_of(&m));
            Ok(p)
        },
        None => Err(text("No ZIP asset found in release")),
    }
}

/// The reply after a tool was installed: the tool's name (the first field
/// of its metadata) and the version.
pub fn bypass_download_message(key: &str, version: &str) -> (r: Result<String, String>)
    ensures
        match r {
            Ok(m) => metadata_spec(key@) matches Some(md) && m@ == "Downloaded "@ + md.0 + " v"@
                + version@,
            Err(e) => metadata_spec(key@) is None && e@ == "Unknown bypass service"@,
        },
{
    match bypass_metadata(key) {
        Some((name, _, _)) => {
            let mut m = chars_of("Downloaded ");
            extend(&mut m, &chars_of(name));
            extend(&mut m, &chars_of(" v"));
            extend(&mut m, &chars_of(version));
            Ok(string_of(&m))
        },
        None => Err(text("Unknown bypass service")),
    }
}

// ---------------------------------------------------------------------------
// Release listings and application updates
// ---------------------------------------------------------------------------

/// At most the first twenty releases, each with its tag, its version and an
/// empty date.
pub fn release_infos(releases: &Vec<GitHubRelease>) -> (r: Vec<ReleaseInfo>)
    ensures
        r@.len() == if releases@.len() < 20 {
            releases@.len()
        } else {
            20
        },
        forall|i: int|
            0 <= i < r@.len() ==> {
                &&& (#[trigger] r@[i]).tag@ == releases@[i].tag_name@
                &&& r@[i].version@ == strip_leading_v(releases@[i].tag_name@)
                &&& r@[i].date@.len() == 0
            },
{
    let n = if releases.len() < 20 {
        releases.len()
    } else {
        20
    };
    let mut r: Vec<ReleaseInfo> = Vec::new();
    for i in 0..n
        invariant
            n <= releases@.len(),
            r@.len() == i,
            forall|j: int|
                0 <= j < i ==> {
                    &&& (#[trigger] r@[j]).tag@ == releases@[j].tag_name@
                    &&& r@[j].version@ == strip_leading_v(releases@[j].tag_name@)
                    &&& r@[j].date@.len() == 0
                },
    {
        let tag = releases[i].tag_name.clone();
        let version = extract_version_from_tag(tag.as_str());
        r.push(ReleaseInfo { tag, version, date: string_of(&Vec::new()) });
    }
    r
}

/// What the update check reports, given the running version and the latest
/// release: an update is needed when the versions differ, and then the
/// download is the first portable executable (or nothing when there is none).
pub open spec fn update_spec(current: Seq<char>, rel: GitHubRelease, u: UpdateInfo) -> bool {
    let latest = strip_leading_v(rel.tag_name@);
    &&& u.current_version@ == current
    &&& u.latest_version@ == latest
    &&& u.needs_update == (latest != current)
    &&& if latest != current {
        match first_index(AssetRule::PortableExe, asset_names(rel.assets@)) {
            Some(i) => u.download_url@ == rel.assets@[i].browser_download_url@,
            None => u.download_url@.len() == 0,
        }
    } else {
        u.download_url@.len() == 0
    }
}

/// The batch script that replaces the running executable `exe` with the
/// downloaded `temp` and starts it again.
pub open spec fn update_script_spec(exe: Seq<char>, temp: Seq<char>) -> Seq<char> {
    "@echo off\ntimeout /t 2 /nobreak > nul\ndel /f /q \""@ + exe + "\"\nmove /y \""@ + temp
        + "\" \""@ + exe + "\"\nstart \"\" \""@ + exe + "\"\ndel /f /q \"%~f0\""@
}

pub fn update_script(exe: &str, temp: &str) -> (r: String)
    ensures
        r@ == update_script_spec(exe@, temp@),
{
    let e = chars_of(exe);
    let mut m = chars_of("@echo off\ntimeout /t 2 /nobreak > nul\ndel /f /q \"");
    extend(&mut m, &e);
    extend(&mut m, &chars_of("\"\nmove /y \""));
    extend(&mut m, &chars_of(temp));
    extend(&mut m, &chars_of("\" \""));
    extend(&mut m, &e);
    extend(&mut m, &chars_of("\"\nstart \"\" \""));
    extend(&mut m, &e);
    extend(&mut m, &chars_of("\"\ndel /f /q \"%~f0\""));
    string_of(&m)
}

pub fn update_info(current: &str, rel: &GitHubRelease) -> (u: UpdateInfo)
    ensures
        update_spec(current@, *rel, u),
{
    let latest = extract_version_from_tag(rel.tag_name.as_str());
    let needs_update = !str_eq(latest.as_str(), current);
    let download_url = if needs_update {
        let found = find_asset(AssetRule::PortableExe, &rel.assets);
        match found {
            Some(i) => rel.assets[i].browser_download_url.clone(),
            None => string_of(&Vec::new()),
        }
    } else {
        string_of(&Vec::new())
    };
    UpdateInfo { current_version: text(current), latest_version: latest, needs_update, download_url }
}

} // verus!
