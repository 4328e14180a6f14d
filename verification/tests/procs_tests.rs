use freenet_lib::procs::{encode_utf16, find_pid_by_name, ProcessEntry};

fn proc_entry(pid: u32, exe: &str) -> ProcessEntry {
    ProcessEntry { pid, exe_file: exe.encode_utf16().collect() }
}

#[test]
fn utf16_encoding() {
    let s: Vec<char> = "aЖ😀".chars().collect();
    let expected: Vec<u16> = "aЖ😀".encode_utf16().collect();
    assert_eq!(encode_utf16(&s), expected);
}

#[test]
fn names_match_case_insensitively_and_by_prefix() {
    let procs = vec![
        proc_entry(1, "System"),
        proc_entry(2, "WINWS64.EXE"),
        proc_entry(3, "TgWsProxy_windows.exe"),
        proc_entry(4, "cs2.exe"),
    ];
    assert_eq!(find_pid_by_name("winws", &procs), Some(2));
    assert_eq!(find_pid_by_name("tgwsproxy_windows.exe", &procs), Some(3));
    assert_eq!(find_pid_by_name("TgWsProxy_windows", &procs), Some(3));
    assert_eq!(find_pid_by_name("system", &procs), Some(1));
    assert_eq!(find_pid_by_name("notepad", &procs), None);
}

#[test]
fn bare_names_match_their_exe_image() {
    let procs = vec![proc_entry(4, "cs2.exe")];
    assert_eq!(find_pid_by_name("cs2", &procs), Some(4));
    assert_eq!(find_pid_by_name("CS2", &procs), Some(4));
    assert_eq!(find_pid_by_name("cs", &procs), None);
    assert_eq!(find_pid_by_name("cs2.exe", &procs), Some(4));
    let bare = vec![proc_entry(5, "cs2")];
    assert_eq!(find_pid_by_name("cs2", &bare), Some(5));
}

#[test]
fn first_listed_process_wins() {
    let procs = vec![proc_entry(8, "winws.exe"), proc_entry(9, "winws.exe")];
    assert_eq!(find_pid_by_name("winws", &procs), Some(8));
}
