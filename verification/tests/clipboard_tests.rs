use freenet_lib::clipboard::{record_clipboard_text, CLIPBOARD_HISTORY_LIMIT};

#[test]
fn newest_text_comes_first_without_duplicates() {
    let mut h: Vec<String> = Vec::new();
    record_clipboard_text(&mut h, "  hi \n");
    assert_eq!(h, vec!["hi"]);
    record_clipboard_text(&mut h, "yo");
    assert_eq!(h, vec!["yo", "hi"]);
    record_clipboard_text(&mut h, "hi");
    assert_eq!(h, vec!["hi", "yo"]);
    record_clipboard_text(&mut h, "   ");
    assert_eq!(h, vec!["hi", "yo"]);
}

#[test]
fn history_is_bounded() {
    let mut h: Vec<String> = Vec::new();
    for i in 0..60 {
        record_clipboard_text(&mut h, &format!("text {}", i));
    }
    assert_eq!(CLIPBOARD_HISTORY_LIMIT, 50);
    assert_eq!(h.len(), 50);
    assert_eq!(h[0], "text 59");
    assert_eq!(h[49], "text 10");
}

#[test]
fn copying_the_latest_text_again_changes_nothing() {
    let mut h: Vec<String> = vec!["b".to_string(), "a".to_string()];
    record_clipboard_text(&mut h, "c");
    let once = h.clone();
    record_clipboard_text(&mut h, " c ");
    assert_eq!(h, once);
    assert_eq!(h, vec!["c", "b", "a"]);
}

#[test]
fn copied_text_moves_to_front_of_filtered_history() {
    for (copied, at) in [("e20", Some(20)), ("e49", Some(49)), ("new", None)] {
        let old: Vec<String> = (0..CLIPBOARD_HISTORY_LIMIT).map(|i| format!("e{}", i)).collect();
        let mut h = old.clone();
        record_clipboard_text(&mut h, &format!(" {} ", copied));
        let mut expected: Vec<String> = vec![copied.to_string()];
        expected.extend(old.iter().filter(|e| e.as_str() != copied).cloned());
        expected.truncate(CLIPBOARD_HISTORY_LIMIT);
        assert_eq!(h, expected);
        assert_eq!(at.is_some(), old.iter().any(|e| e == copied));
    }
}
