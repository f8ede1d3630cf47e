use goto::hist::{history_path, pop_history, push_entry};

#[test]
fn push_appends_entry_after_trimmed_history() {
    assert_eq!(push_entry("/a;1;2\n", "/x", 5, 99), "/a;1;2\n/x;5;99");
}

#[test]
fn pop_returns_previous_entry() {
    let e = vec!["/a;1;1".to_string(), "/b;1;2".to_string()];
    let (kept, path) = pop_history(&e).unwrap();
    assert_eq!(kept, vec!["/a;1;1".to_string()]);
    assert_eq!(path, "/a");
}

#[test]
fn pop_of_single_entry_finds_nothing() {
    assert!(pop_history(&vec!["/a;1;1".to_string()]).is_none());
    assert!(pop_history(&vec![]).is_none());
}

#[test]
fn history_path_is_first_field() {
    assert_eq!(history_path("/x/y;12;34"), "/x/y");
}
