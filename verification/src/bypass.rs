use vstd::prelude::*;

use crate::procs::{ProcessEntry, find_pid_by_name, pid_by_name};
use crate::text::{chars_of, extend, owned, same, string_of, strs_of, lemma_strs_push};
use crate::types::{BypassServiceInfo, opt_view};

verus! {

// ---------------------------------------------------------------------------
// The bypass tools
// ---------------------------------------------------------------------------

/// The DPI bypasses, of which at most one runs at a time.
pub open spec fn exclusive_keys() -> Seq<Seq<char>> {
    seq!["zapret"@, "goodbyedpi"@, "byedpi"@]
}

/// Every entry of the bypass hub: the exclusive bypasses, then tg-ws-proxy.
pub open spec fn all_bypass_keys() -> Seq<Seq<char>> {
    exclusive_keys().push("tg-ws-proxy"@)
}

/// The keys of the DPI bypasses, of which at most one runs at a time.
pub fn exclusive_bypasses() -> (r: Vec<&'static str>)
    ensures
        r@.len() == 3,
        r@[0]@ == exclusive_keys()[0],
        r@[1]@ == exclusive_keys()[1],
        r@[2]@ == exclusive_keys()[2],
{
    let mut r = Vec::new();
    r.push("zapret");
    r.push("goodbyedpi");
    r.push("byedpi");
    r
}

/// The keys of every entry of the bypass hub, in display order.
pub fn all_bypasses() -> (r: Vec<&'static str>)
    ensures
        r@.len() == 4,
        forall|i: int| 0 <= i < 4 ==> (#[trigger] r@[i])@ == all_bypass_keys()[i],
{
    let mut r = exclusive_bypasses();
    r.push("tg-ws-proxy");
    r
}

pub open spec fn metadata_spec(key: Seq<char>) -> Option<(Seq<char>, Seq<char>, bool)> {
    if key == "zapret"@ {
        Some(("zapret (winws)"@, "DPI bypass with customizable strategies (general.bat)"@, true))
    } else if key == "goodbyedpi"@ {
        Some(("GoodbyeDPI"@, "DPI bypass via WinDivert (ValdikSS)"@, true))
    } else if key == "byedpi"@ {
        Some(("ByeDPI"@, "DPI bypass, actively maintained fork of GoodbyeDPI"@, true))
    } else if key == "tg-ws-proxy"@ {
        Some(("tg-ws-proxy"@, "Telegram WebSocket proxy (runs alongside a bypass)"@, false))
    } else {
        None
    }
}

pub open spec fn meta_view(m: Option<(&'static str, &'static str, bool)>) -> Option<(Seq<char>, Seq<char>, bool)> {
    match m {
        Some((a, b, c)) => Some((a@, b@, c)),
        None => None,
    }
}

fn is_key(key: &Vec<char>, name: &str) -> (r: bool)
    ensures
        r == (key@ == name@),
{
    same(key, &chars_of(name))
}

/// Display name, description, and whether the tool is one of the mutually
/// exclusive DPI bypasses.
pub fn bypass_metadata(key: &str) -> (r: Option<(&'static str, &'static str, bool)>)
    ensures
        meta_view(r) == metadata_spec(key@),
{
    let k = chars_of(key);
    if is_key(&k, "zapret") {
        Some(("zapret (winws)", "DPI bypass with customizable strategies (general.bat)", true))
    } else if is_key(&k, "goodbyedpi") {
        Some(("GoodbyeDPI", "DPI bypass via WinDivert (ValdikSS)", true))
    } else if is_key(&k, "byedpi") {
        Some(("ByeDPI", "DPI bypass, actively maintained fork of GoodbyeDPI", true))
    } else if is_key(&k, "tg-ws-proxy") {
        Some(("tg-ws-proxy", "Telegram WebSocket proxy (runs alongside a bypass)", false))
    } else {
        None
    }
}

pub open spec fn static_view(o: Option<&'static str>) -> Option<Seq<char>> {
    match o {
        Some(s) => Some(s@),
        None => None,
    }
}

pub open spec fn running_image_spec(key: Seq<char>) -> Option<Seq<char>> {
    if key == "zapret"@ {
        Some("winws"@)
    } else if key == "goodbyedpi"@ {
        Some("goodbyedpi"@)
    } else if key == "byedpi"@ {
        Some("ciadpi"@)
    } else if key == "tg-ws-proxy"@ {
        Some("TgWsProxy_windows"@)
    } else {
        None
    }
}

/// The process name a running tool shows up under.
pub fn bypass_running_image(key: &str) -> (r: Option<&'static str>)
    ensures
        static_view(r) == running_image_spec(key@),
{
    let k = chars_of(key);
    if is_key(&k, "zapret") {
        Some("winws")
    } else if is_key(&k, "goodbyedpi") {
        Some("goodbyedpi")
    } else if is_key(&k, "byedpi") {
        Some("ciadpi")
    } else if is_key(&k, "tg-ws-proxy") {
        Some("TgWsProxy_windows")
    } else {
        None
    }
}

pub open spec fn exe_name_spec(key: Seq<char>) -> Option<Seq<char>> {
    if key == "zapret"@ {
        Some("winws.exe"@)
    } else if key == "goodbyedpi"@ {
        Some("goodbyedpi.exe"@)
    } else if key == "byedpi"@ {
        Some("ciadpi.exe"@)
    } else if key == "tg-ws-proxy"@ {
        Some("TgWsProxy_windows.exe"@)
    } else {
        None
    }
}

/// The executable file of a tool.
pub fn bypass_exe_name(key: &str) -> (r: Option<&'static str>)
    ensures
        static_view(r) == exe_name_spec(key@),
{
    let k = chars_of(key);
    if is_key(&k, "zapret") {
        Some("winws.exe")
    } else if is_key(&k, "goodbyedpi") {
        Some("goodbyedpi.exe")
    } else if is_key(&k, "byedpi") {
        Some("ciadpi.exe")
    } else if is_key(&k, "tg-ws-proxy") {
        Some("TgWsProxy_windows.exe")
    } else {
        None
    }
}

/// A tool runs when a process of its image name is listed.
pub open spec fn running_spec(key: Seq<char>, procs: Seq<ProcessEntry>) -> bool {
    match running_image_spec(key) {
        Some(image) => pid_by_name(procs, image) is Some,
        None => false,
    }
}

/// Whether the tool `key` is running, judged from the process list `procs`.
pub fn is_bypass_running(key: &str, procs: &Vec<ProcessEntry>) -> (r: bool)
    ensures
        r == running_spec(key@, procs@),
{
    match bypass_running_image(key) {
        Some(image) => find_pid_by_name(image, procs).is_some(),
        None => false,
    }
}

pub open spec fn active_upto(procs: Seq<ProcessEntry>, n: nat) -> Option<Seq<char>>
    decreases n,
{
    if n == 0 || n > 3 {
        None
    } else {
        match active_upto(procs, (n - 1) as nat) {
            Some(k) => Some(k),
            None => if running_spec(exclusive_keys()[n - 1], procs) {
                Some(exclusive_keys()[n - 1])
            } else {
                None
            },
        }
    }
}

/// The running DPI bypass, the first one in the order zapret, GoodbyeDPI,
/// ByeDPI.
pub fn get_active_bypass(procs: &Vec<ProcessEntry>) -> (r: Option<String>)
    ensures
        opt_view(r) == active_upto(procs@, 3),
{
    let keys = exclusive_bypasses();
    let mut i: usize = 0;
    while i < 3
        invariant
            i <= 3,
            keys@.len() == 3,
            keys@[0]@ == exclusive_keys()[0],
            keys@[1]@ == exclusive_keys()[1],
            keys@[2]@ == exclusive_keys()[2],
            active_upto(procs@, i as nat) is None,
        decreases 3 - i,
    {
        if is_bypass_running(keys[i], procs) {
            proof {
                assert(active_upto(procs@, (i + 1) as nat) == Some(exclusive_keys()[i as int]));
                lemma_active_stays(procs@, (i + 1) as nat, 3);
            }
            return Some(owned(keys[i]));
        }
        i += 1;
    }
    None
}

proof fn lemma_active_stays(procs: Seq<ProcessEntry>, m: nat, n: nat)
    requires
        m <= n <= 3,
        active_upto(procs, m) is Some,
    ensures
        active_upto(procs, n) == active_upto(procs, m),
    decreases n - m,
{
    if m < n {
        lemma_active_stays(procs, m, (n - 1) as nat);
    }
}

pub open spec fn to_stop_upto(key: Seq<char>, procs: Seq<ProcessEntry>, n: nat) -> Seq<Seq<char>>
    decreases n,
{
    if n == 0 || n > 3 {
        seq![]
    } else {
        let prev = to_stop_upto(key, procs, (n - 1) as nat);
        let other = exclusive_keys()[n - 1];
        if other != key && running_spec(other, procs) {
            prev.push(other)
        } else {
            prev
        }
    }
}

/// The bypasses to stop before starting `key`: when `key` is one of the
/// exclusive bypasses, every other exclusive bypass that runs; otherwise
/// none.
pub open spec fn to_stop_spec(key: Seq<char>, procs: Seq<ProcessEntry>) -> Seq<Seq<char>> {
    if exclusive_keys().contains(key) {
        to_stop_upto(key, procs, 3)
    } else {
        seq![]
    }
}

/// The bypasses that must be stopped before `key` is started.
pub fn bypasses_to_stop(key: &str, procs: &Vec<ProcessEntry>) -> (r: Vec<String>)
    ensures
        strs_of(r@) == to_stop_spec(key@, procs@),
{
    let keys = exclusive_bypasses();
    let k = chars_of(key);
    let exclusive = is_key(&k, "zapret") || is_key(&k, "goodbyedpi") || is_key(&k, "byedpi");
    proof {
        if exclusive_keys().contains(key@) {
            let j = choose|j: int| 0 <= j < 3 && exclusive_keys()[j] == key@;
            assert(j == 0 || j == 1 || j == 2);
        }
        if exclusive {
            assert(exclusive_keys()[0] == "zapret"@);
            assert(key@ == exclusive_keys()[0] || key@ == exclusive_keys()[1] || key@ == exclusive_keys()[2]);
        }
    }
    let mut r: Vec<String> = Vec::new();
    if !exclusive {
        assert(strs_of(r@) =~= Seq::<Seq<char>>::empty());
        return r;
    }
    for i in 0..3
        invariant
            keys@.len() == 3,
            keys@[0]@ == exclusive_keys()[0],
            keys@[1]@ == exclusive_keys()[1],
            keys@[2]@ == exclusive_keys()[2],
            k@ == key@,
            strs_of(r@) == to_stop_upto(key@, procs@, i as nat),
    {
        let other = keys[i];
        if !same(&chars_of(other), &k) && is_bypass_running(other, procs) {
            let ghost r0 = r@;
            let o = owned(other);
            r.push(o);
            proof {
                lemma_strs_push(r0, o);
            }
        }
    }
    r
}

/// The entry of the bypass hub for tool `key`, given whether it is installed,
/// whether it runs and the version recorded at installation.
pub fn bypass_service_info(key: &str, installed: bool, running: bool, version: Option<String>) -> (r:
    Option<BypassServiceInfo>)
    ensures
        r is None <==> metadata_spec(key@) is None,
        r matches Some(info) ==> {
            let m = metadata_spec(key@)->0;
            &&& info.key@ == key@
            &&& info.name@ == m.0
            &&& info.description@ == m.1
            &&& info.exclusive == m.2
            &&& info.installed == installed
            &&& info.running == running
            &&& info.installed_version == version
            &&& info.latest_version == version
        },
{
    match bypass_metadata(key) {
        Some((name, description, exclusive)) => {
            let latest = match &version {
                Some(v) => Some(v.clone()),
                None => None,
            };
            Some(
                BypassServiceInfo {
                    key: owned(key),
                    name: owned(name),
                    description: owned(description),
                    installed,
                    running,
                    exclusive,
                    installed_version: version,
                    latest_version: latest,
                },
            )
        },
        None => None,
    }
}

/// How a downloaded tool is started: its executable and arguments.
pub open spec fn launch_spec(key: Seq<char>) -> Option<(Seq<char>, Seq<Seq<char>>)> {
    if key == "goodbyedpi"@ {
        Some(
            (
                "goodbyedpi.exe"@,
                seq![
                    "-1"@,
                    "--dpi-desync=fake,fakedsplit"@,
                    "--dpi-desync-autottl=2"@,
                    "--dpi-desync-fooling=md5sig"@,
                    "--dpi-desync-fake-from-http=1"@,
                    "--dpi-desync-ttl=3"@,
                ],
            ),
        )
    } else if key == "byedpi"@ {
        Some(
            (
                "ciadpi.exe"@,
                seq![
                    "--split"@,
                    "1"@,
                    "--disorder"@,
                    "3+s"@,
                    "--mod-http=h,d"@,
                    "--auto=torst"@,
                    "--tlsrec"@,
                    "1+s"@,
                ],
            ),
        )
    } else {
        None
    }
}

fn push_arg(v: &mut Vec<String>, a: &str)
    ensures
        strs_of(final(v)@) == strs_of(old(v)@).push(a@),
{
    let s = owned(a);
    let ghost v0 = v@;
    v.push(s);
    proof {
        lemma_strs_push(v0, s);
    }
}

pub open spec fn unknown_bypass_spec(key: Seq<char>) -> Seq<char> {
    "Unknown bypass service: "@ + key
}

fn unknown_bypass(key: &str) -> (r: String)
    ensures
        r@ == unknown_bypass_spec(key@),
{
    let mut m = chars_of("Unknown bypass service: ");
    extend(&mut m, &chars_of(key));
    string_of(&m)
}

/// Executable and arguments for starting GoodbyeDPI or ByeDPI; any other key
/// is refused.
pub fn bypass_launch(key: &str) -> (r: Result<(&'static str, Vec<String>), String>)
    ensures
        match r {
            Ok((exe, args)) => launch_spec(key@) == Some((exe@, strs_of(args@))),
            Err(e) => launch_spec(key@) is None && e@ == unknown_bypass_spec(key@),
        },
{
    let k = chars_of(key);
    let mut args: Vec<String> = Vec::new();
    if is_key(&k, "goodbyedpi") {
        push_arg(&mut args, "-1");
        push_arg(&mut args, "--dpi-desync=fake,fakedsplit");
        push_arg(&mut args, "--dpi-desync-autottl=2");
        push_arg(&mut args, "--dpi-desync-fooling=md5sig");
        push_arg(&mut args, "--dpi-desync-fake-from-http=1");
        push_arg(&mut args, "--dpi-desync-ttl=3");
        assert(strs_of(args@) =~= (launch_spec(key@)->0).1);
        Ok(("goodbyedpi.exe", args))
    } else if is_key(&k, "byedpi") {
        push_arg(&mut args, "--split");
        push_arg(&mut args, "1");
        push_arg(&mut args, "--disorder");
        push_arg(&mut args, "3+s");
        push_arg(&mut args, "--mod-http=h,d");
        push_arg(&mut args, "--auto=torst");
        push_arg(&mut args, "--tlsrec");
        push_arg(&mut args, "1+s");
        assert(strs_of(args@) =~= (launch_spec(key@)->0).1);
        Ok(("ciadpi.exe", args))
    } else {
        Err(unknown_bypass(key))
    }
}

/// The image name by which a tool is killed when it is stopped.
pub open spec fn stop_image_spec(key: Seq<char>) -> Option<Seq<char>> {
    exe_name_spec(key)
}

/// The image name to kill when stopping `key`; unknown keys are refused.
pub fn stop_bypass_image(key: &str) -> (r: Result<&'static str, String>)
    ensures
        match r {
            Ok(image) => stop_image_spec(key@) == Some(image@),
            Err(e) => stop_image_spec(key@) is None && e@ == unknown_bypass_spec(key@),
        },
{
    match bypass_exe_name(key) {
        Some(image) => Ok(image),
        None => Err(unknown_bypass(key)),
    }
}

/// The name under which a started tool's process is tracked.
pub fn bypass_pid_name(key: &str) -> (r: String)
    ensures
        r@ == "bypass_"@ + key@,
{
    let mut m = chars_of("bypass_");
    extend(&mut m, &chars_of(key));
    string_of(&m)
}

/// The refusal of starting a tool that already runs.
pub fn already_running_message(key: &str) -> (r: String)
    ensures
        r@ == key@ + " is already running"@,
{
    let mut m = chars_of(key);
    extend(&mut m, &chars_of(" is already running"));
    string_of(&m)
}

/// How a tool of the hub is installed and started: zapret and tg-ws-proxy
/// through their own services, the others as downloaded tools.
#[derive(Debug, Clone, Copy, PartialEq, Eq)]
pub enum BypassRoute {
    Zapret,
    TgProxy,
    Tool,
}

pub open spec fn route_spec(key: Seq<char>) -> BypassRoute {
    if key == "zapret"@ {
        BypassRoute::Zapret
    } else if key == "tg-ws-proxy"@ {
        BypassRoute::TgProxy
    } else {
        BypassRoute::Tool
    }
}

pub fn bypass_route(key: &str) -> (r: BypassRoute)
    ensures
        r == route_spec(key@),
{
    let k = chars_of(key);
    if same(&k, &chars_of("zapret")) {
        BypassRoute::Zapret
    } else if same(&k, &chars_of("tg-ws-proxy")) {
        BypassRoute::TgProxy
    } else {
        BypassRoute::Tool
    }
}

/// At most one exclusive bypass is left running: after the ones listed by
/// `bypasses_to_stop` are stopped, none but `key` remains of the exclusive
/// set among those that were running.
pub proof fn law_exclusive_bypasses_stopped(key: Seq<char>, procs: Seq<ProcessEntry>, other: Seq<char>)
    requires
        exclusive_keys().contains(key),
        exclusive_keys().contains(other),
        other != key,
        running_spec(other, procs),
    ensures
        to_stop_spec(key, procs).contains(other),
{
    let j = choose|j: int| 0 <= j < 3 && exclusive_keys()[j] == other;
    lemma_to_stop_contains(key, procs, j, 3);
}

proof fn lemma_to_stop_contains(key: Seq<char>, procs: Seq<ProcessEntry>, j: int, n: nat)
    requires
        0 <= j < n <= 3,
        exclusive_keys()[j] != key,
        running_spec(exclusive_keys()[j], procs),
    ensures
        to_stop_upto(key, procs, n).contains(exclusive_keys()[j]),
    decreases n,
{
    let prev = to_stop_upto(key, procs, (n - 1) as nat);
    if j < n - 1 {
        lemma_to_stop_contains(key, procs, j, (n - 1) as nat);
        let i = choose|i: int| 0 <= i < prev.len() && prev[i] == exclusive_keys()[j];
        if to_stop_upto(key, procs, n) != prev {
            assert(to_stop_upto(key, procs, n)[i] == prev[i]);
        }
    } else {
        assert(to_stop_upto(key, procs, n).last() == exclusive_keys()[j]);
    }
}

/// Starting a tool never stops anything but the exclusive bypasses other
/// than itself, so tg-ws-proxy keeps running alongside any bypass and
/// starting tg-ws-proxy stops nothing.
pub proof fn law_only_other_exclusive_bypasses_stopped(key: Seq<char>, procs: Seq<ProcessEntry>)
    ensures
        forall|i: int|
            0 <= i < to_stop_spec(key, procs).len() ==> exclusive_keys().contains(
                #[trigger] to_stop_spec(key, procs)[i],
            ) && to_stop_spec(key, procs)[i] != key,
        !exclusive_keys().contains(key) ==> to_stop_spec(key, procs).len() == 0,
{
    if exclusive_keys().contains(key) {
        lemma_to_stop_members(key, procs, 3);
    }
}

proof fn lemma_to_stop_members(key: Seq<char>, procs: Seq<ProcessEntry>, n: nat)
    requires
        n <= 3,
    ensures
        forall|i: int|
            0 <= i < to_stop_upto(key, procs, n).len() ==> exclusive_keys().contains(
                #[trigger] to_stop_upto(key, procs, n)[i],
            ) && to_stop_upto(key, procs, n)[i] != key,
    decreases n,
{
    if n > 0 {
        lemma_to_stop_members(key, procs, (n - 1) as nat);
        let prev = to_stop_upto(key, procs, (n - 1) as nat);
        let cur = to_stop_upto(key, procs, n);
        assert forall|i: int| 0 <= i < cur.len() implies exclusive_keys().contains(#[trigger] cur[i])
            && cur[i] != key by {
            if i < prev.len() {
                assert(cur[i] == prev[i]);
            } else {
                assert(cur[i] == exclusive_keys()[n - 1]);
            }
        }
    }
}

} // verus!
