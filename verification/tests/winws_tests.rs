use freenet_lib::winws::{join_dir, parse_winws_command};

const BAT: &str = "@echo off\r\nchcp 65001 > nul\r\nset \"BIN=%~dp0bin\\\"\r\nstart \"zapret: general\" /min \"%BIN%winws.exe\" --wf-tcp=80,443,%GameFilterTCP% ^\r\n--filter-tcp=443 --hostlist=\"%LISTS%list-general.txt\" --dpi-desync=fake ^\r\n\r\n--new\r\necho done\r\n--late\r\n";

#[test]
fn winws_arguments_of_a_strategy_file() {
    let (exe, args) = parse_winws_command(BAT, "C:\\z").unwrap();
    assert_eq!(exe, "C:\\z\\bin\\winws.exe");
    assert_eq!(
        args,
        vec![
            "--wf-tcp=80,443,12",
            "--filter-tcp=443",
            "--hostlist=C:\\z\\lists\\list-general.txt",
            "--dpi-desync=fake",
            "--new",
        ]
    );
}

#[test]
fn placeholders_are_expanded() {
    let bat = "\"%~dp0bin\\winws.exe\" --a=%GameFilter% --b=%GameFilterUDP% --c=%BIN%x";
    let (exe, args) = parse_winws_command(bat, "D:\\q").unwrap();
    assert_eq!(exe, "D:\\q\\bin\\winws.exe");
    assert_eq!(args, vec!["--a=12", "--b=12", "--c=D:\\q\\bin\\x"]);
}

#[test]
fn no_winws_line() {
    assert_eq!(
        parse_winws_command("@echo off\necho hi\n", "a"),
        Err("winws.exe not found in bat".to_string())
    );
    assert_eq!(parse_winws_command("", "a"), Err("winws.exe not found in bat".to_string()));
}

#[test]
fn winws_without_arguments_gives_none() {
    let (exe, args) = parse_winws_command("winws.exe\n", "a").unwrap();
    assert_eq!(exe, "a\\bin\\winws.exe");
    assert_eq!(args, Vec::<String>::new());
}

#[test]
fn strategy_file_program_and_arguments() {
    let bat = "start \"z\" /min \"%BIN%winws.exe\" --wf-tcp=443 ^\n--hostlist=\"%LISTS%l.txt\"\necho x\n";
    let (exe, args) = parse_winws_command(bat, "C:\\z").unwrap();
    assert_eq!(exe, "C:\\z\\bin\\winws.exe");
    assert_eq!(args, vec!["--wf-tcp=443".to_string(), "--hostlist=C:\\z\\lists\\l.txt".to_string()]);
}

#[test]
fn folders_are_joined_once() {
    assert_eq!(join_dir("C:\\z", "bin"), "C:\\z\\bin");
    assert_eq!(join_dir("C:\\z\\", "bin"), "C:\\z\\bin");
    assert_eq!(join_dir("C:/z/", "bin"), "C:/z/bin");
    assert_eq!(join_dir("", "bin"), "bin");
}
