use freenet_lib::launch::{helper_command_line, helper_pid_from_args, marker_pid};

fn args(a: &[&str]) -> Vec<String> {
    a.iter().map(|s| s.to_string()).collect()
}

#[test]
fn helper_flag_with_pid() {
    assert_eq!(helper_pid_from_args(&args(&["freenet.exe", "--media-helper", "1234"])), Some(Some(1234)));
    assert_eq!(helper_pid_from_args(&args(&["freenet.exe", "--media-helper", "+5"])), Some(Some(5)));
}

#[test]
fn helper_flag_without_usable_pid() {
    assert_eq!(helper_pid_from_args(&args(&["freenet.exe", "--media-helper"])), Some(None));
    assert_eq!(helper_pid_from_args(&args(&["--media-helper", "abc"])), Some(None));
    assert_eq!(helper_pid_from_args(&args(&["--media-helper", "-1"])), Some(None));
    assert_eq!(
        helper_pid_from_args(&args(&["--media-helper", "x", "--media-helper", "9"])),
        Some(None)
    );
}

#[test]
fn no_helper_flag() {
    assert_eq!(helper_pid_from_args(&args(&["freenet.exe"])), None);
    assert_eq!(helper_pid_from_args(&args(&[])), None);
    assert_eq!(helper_pid_from_args(&args(&["--media-helper=3"])), None);
}

#[test]
fn marker_contents() {
    assert_eq!(marker_pid("4321\r\n"), Some(4321));
    assert_eq!(marker_pid("  7 "), Some(7));
    assert_eq!(marker_pid(""), None);
    assert_eq!(marker_pid("12a"), None);
    assert_eq!(marker_pid("4294967296"), None);
    assert_eq!(marker_pid("4294967295"), Some(4294967295));
}

#[test]
fn helper_command_line_reads_back() {
    let line = helper_command_line("C:\\Program Files\\FREENET\\freenet.exe", 4321);
    assert_eq!(line, "\"C:\\Program Files\\FREENET\\freenet.exe\" --media-helper 4321");
    let args = args(&["C:\\Program Files\\FREENET\\freenet.exe", "--media-helper", "4321"]);
    assert_eq!(helper_pid_from_args(&args), Some(Some(4321)));
}
