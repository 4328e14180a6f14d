use freenet_lib::pids::PidTable;

#[test]
fn table_of_processes() {
    let mut t = PidTable::new();
    assert_eq!(t.get("a"), None);
    t.insert("a".to_string(), 1);
    t.insert("b".to_string(), 2);
    t.insert("a".to_string(), 3);
    assert_eq!(t.get("a"), Some(3));
    assert_eq!(t.get("b"), Some(2));
    assert_eq!(t.remove("b"), Some(2));
    assert_eq!(t.remove("b"), None);
    t.insert("c".to_string(), 4);
    let mut all = t.drain();
    all.sort();
    assert_eq!(all, vec![3, 4]);
    assert_eq!(t.get("a"), None);
    assert_eq!(t.drain(), Vec::<u32>::new());
}
