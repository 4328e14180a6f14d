use freenet_lib::files::{
    any_bat_file, collect_bat_files, find_bat, first_named, has_bat_extension,
    last_named_ignoring_case,
};

fn names(a: &[&str]) -> Vec<String> {
    a.iter().map(|s| s.to_string()).collect()
}

#[test]
fn bat_extensions() {
    assert!(has_bat_extension("general.bat"));
    assert!(has_bat_extension("a.b.bat"));
    assert!(!has_bat_extension("GENERAL.BAT"));
    assert!(!has_bat_extension(".bat"));
    assert!(!has_bat_extension("bat"));
    assert!(!has_bat_extension("x.bat.txt"));
    assert!(!has_bat_extension(".."));
}

#[test]
fn strategy_files_in_order() {
    let n = names(&["general.bat", "general (ALT).bat", "other.bat", "General_FAKE.bat", "general.txt"]);
    assert_eq!(collect_bat_files(&n), names(&["general.bat", "general (ALT).bat", "General_FAKE.bat"]));
    assert_eq!(collect_bat_files(&vec![]), Vec::<String>::new());
}

#[test]
fn any_bat() {
    assert!(any_bat_file(&names(&["a.txt", "service.bat"])));
    assert!(!any_bat_file(&names(&["a.txt", "b.BAT"])));
    assert!(!any_bat_file(&vec![]));
}

#[test]
fn lookups_by_name() {
    let n = names(&["a", "b", "a"]);
    assert_eq!(first_named(&n, "a"), Some(0));
    assert_eq!(first_named(&n, "c"), None);
    assert_eq!(find_bat(&names(&["x.bat", "general.bat"]), "general.bat"), Ok(1));
    assert_eq!(
        find_bat(&names(&["x.bat"]), "general.bat"),
        Err("Bat file 'general.bat' not found in zapret directory".to_string())
    );
    let exes = names(&["CIADPI.exe", "x", "ciadpi.EXE"]);
    assert_eq!(last_named_ignoring_case(&exes, "ciadpi.exe"), Some(2));
    assert_eq!(last_named_ignoring_case(&exes, "goodbyedpi.exe"), None);
}
