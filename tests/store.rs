use goto::commands::{Cmd, ShortPath};
use goto::diagnostic::Diagnostic;
use goto::dirs::{read_dline, update_store, Op, SearchState};

fn get(short: Option<&str>, sub: Option<&str>) -> Cmd {
    Cmd::Get(ShortPath { short: short.map(String::from), path: sub.map(String::from) })
}

fn add(short: &str, path: &str) -> Cmd {
    Cmd::Add(ShortPath { short: Some(short.to_string()), path: Some(path.to_string()) })
}

fn edit(short: &str, path: &str) -> Cmd {
    Cmd::Edit(ShortPath { short: Some(short.to_string()), path: Some(path.to_string()) })
}

#[test]
fn fallback_selection_picks_highest_priority() {
    let r = update_store("A;1;10\nB;2;20\nC;3;5\n", &[get(None, None)], 10);
    assert_eq!(r.resolved, Some("B/".to_string()));
    assert_eq!(r.text, "A;1;10\nB;2;20\nC;3;5\n");
    assert!(r.issues.is_empty());
}

#[test]
fn fallback_prefers_first_of_equal_priorities() {
    let r = update_store("A;1;20\nB;2;20\n", &[get(None, None)], 10);
    assert_eq!(r.resolved, Some("A/".to_string()));
}

#[test]
fn fallback_ignores_zero_priorities() {
    let r = update_store("A;1;0\n", &[get(None, None)], 10);
    assert_eq!(r.resolved, Some("/".to_string()));
}

#[test]
fn lookup_raises_priority_by_incr() {
    let r = update_store("/a;x;5\n/b;y;7\n", &[get(Some("y"), None)], 10);
    assert_eq!(r.text, "/a;x;5\n/b;y;17\n");
    assert_eq!(r.resolved, Some("/b/".to_string()));
    assert!(r.issues.is_empty());
}

#[test]
fn lookup_appends_subpath() {
    let r = update_store("/a;x;5\n", &[get(Some("x"), Some("src"))], 3);
    assert_eq!(r.resolved, Some("/a/src".to_string()));
    assert_eq!(r.text, "/a;x;8\n");
}

#[test]
fn lookup_of_unknown_shortcut_falls_back_and_reports() {
    let r = update_store("/a;x;5\n/b;y;7\n", &[get(Some("zz"), None)], 10);
    assert_eq!(r.resolved, Some("/b/".to_string()));
    assert_eq!(r.text, "/a;x;5\n/b;y;7\n");
    assert_eq!(r.issues, vec![Diagnostic::ShortcutNotFound]);
}

#[test]
fn round_trip_rewrites_same_bytes() {
    let data = "/home/u/a;a;alpha;12\n/srv/b;b;0\n";
    let r = update_store(data, &[get(Some("nothing"), None)], 10);
    assert_eq!(r.text, data);
}

#[test]
fn blank_lines_are_dropped_and_last_line_gets_a_break() {
    let r = update_store("/a;x;5\n\n/b;y;7", &[get(None, None)], 10);
    assert_eq!(r.text, "/a;x;5\n/b;y;7\n");
}

#[test]
fn surrounding_whitespace_and_carriage_return_are_trimmed() {
    let r = update_store("  /p1;a;3  \n/p2;b;4\r\n", &[get(None, None)], 10);
    assert_eq!(r.text, "/p1;a;3\n/p2;b;4\n");
}

#[test]
fn add_collision_leaves_store_unchanged() {
    let r = update_store("/p2;x;3\n", &[add("x", "/p1")], 10);
    assert_eq!(r.text, "/p2;x;3\n");
    assert_eq!(r.issues, vec![Diagnostic::ShortcutExists]);
    assert_eq!(r.resolved, None);
}

#[test]
fn add_collision_found_after_the_path_record() {
    let r = update_store("/p1;a;3\n/p2;x;4\n", &[add("x", "/p1")], 10);
    assert_eq!(r.text, "/p1;a;3\n/p2;x;4\n");
    assert_eq!(r.issues, vec![Diagnostic::ShortcutExists]);
}

#[test]
fn add_to_existing_path_appends_shortcut_and_raises() {
    let r = update_store("/p1;a;3\n", &[add("b", "/p1")], 10);
    assert_eq!(r.text, "/p1;a;b;13\n");
    assert!(r.issues.is_empty());
}

#[test]
fn add_new_path_appends_record() {
    let r = update_store("/p1;a;3\n", &[add("b", "/p2")], 10);
    assert_eq!(r.text, "/p1;a;3\n/p2;b;0\n");
    assert_eq!(r.resolved, None);
}

#[test]
fn add_to_empty_store() {
    let r = update_store("", &[add("b", "/p2")], 10);
    assert_eq!(r.text, "/p2;b;0\n");
}

#[test]
fn edit_moves_record_keeping_priority() {
    let r = update_store("/p1;a;3\n", &[edit("a", "/p9")], 10);
    assert_eq!(r.text, "/p9;a;3\n");
    assert!(r.issues.is_empty());
}

#[test]
fn edit_to_existing_path_is_refused() {
    let r = update_store("/p1;a;3\n/p2;b;4\n", &[edit("b", "/p1")], 10);
    assert_eq!(r.text, "/p1;a;3\n/p2;b;4\n");
    assert_eq!(r.issues, vec![Diagnostic::PathExists]);
}

#[test]
fn edit_of_unknown_shortcut_appends_record() {
    let r = update_store("/p1;a;3\n", &[edit("c", "/p3")], 10);
    assert_eq!(r.text, "/p1;a;3\n/p3;c;0\n");
}

#[test]
fn remove_last_shortcut_drops_record() {
    let r = update_store("/p1;a;3\n/p2;b;c;4\n", &[Cmd::Rm("a".to_string())], 10);
    assert_eq!(r.text, "/p2;b;c;4\n");
    assert!(r.issues.is_empty());
}

#[test]
fn remove_one_of_two_keeps_the_other() {
    let r = update_store("/p1;a;3\n/p2;b;c;4\n", &[Cmd::Rm("b".to_string())], 10);
    assert_eq!(r.text, "/p1;a;3\n/p2;c;4\n");
}

#[test]
fn remove_unknown_shortcut_reports() {
    let r = update_store("/p1;a;3\n", &[Cmd::Rm("z".to_string())], 10);
    assert_eq!(r.text, "/p1;a;3\n");
    assert_eq!(r.issues, vec![Diagnostic::NothingRemoved]);
}

#[test]
fn delete_removes_whole_record() {
    let r = update_store("/p1;a;b;3\n/p2;c;4\n", &[Cmd::Del("/p1".to_string())], 10);
    assert_eq!(r.text, "/p2;c;4\n");
    assert_eq!(r.resolved, None);
    assert!(r.issues.is_empty());
}

#[test]
fn delete_unknown_path_reports() {
    let r = update_store("/p1;a;3\n", &[Cmd::Del("/zz".to_string())], 10);
    assert_eq!(r.text, "/p1;a;3\n");
    assert_eq!(r.issues, vec![Diagnostic::NothingDeleted]);
}

#[test]
fn decrement_saturates_at_zero() {
    let r = update_store("/p1;a;3\n/p2;b;40\n", &[Cmd::Decr(10)], 10);
    assert_eq!(r.text, "/p1;a;0\n/p2;b;30\n");
    assert_eq!(r.resolved, None);
}

#[test]
fn reset_zeroes_every_priority() {
    let r = update_store("/p1;a;3\n/p2;b;40\n", &[Cmd::Reset], 10);
    assert_eq!(r.text, "/p1;a;0\n/p2;b;0\n");
}

#[test]
fn malformed_line_is_dropped_and_reported() {
    let r = update_store("/p1;a;3\nbogus\n/p2;b;4\n", &[get(None, None)], 10);
    assert_eq!(r.text, "/p1;a;3\n/p2;b;4\n");
    assert_eq!(r.issues, vec![Diagnostic::MalformedLine(1)]);
}

#[test]
fn bad_priority_reads_as_zero() {
    let r = update_store("/p1;a;xx\n", &[get(None, None)], 10);
    assert_eq!(r.text, "/p1;a;0\n");
    assert_eq!(r.issues, vec![Diagnostic::BadPriority(0)]);
}

#[test]
fn priority_overflow_keeps_priority_and_reports() {
    let r = update_store("/p1;a;4294967290\n", &[get(Some("a"), None)], 10);
    assert_eq!(r.text, "/p1;a;4294967290\n");
    assert_eq!(r.issues, vec![Diagnostic::PriorityOverflow(0)]);
    assert_eq!(r.resolved, Some("/p1/".to_string()));
}

#[test]
fn lines_after_a_match_are_copied_through() {
    let r = update_store("/p1;a;3\n  weird line  \n/p2;b;+04\n", &[get(Some("a"), None)], 10);
    assert_eq!(r.text, "/p1;a;13\nweird line\n/p2;b;+04\n");
}

#[test]
fn only_first_matching_record_changes() {
    let r = update_store("/p1;a;3\n/p2;a;4\n", &[get(Some("a"), None)], 1);
    assert_eq!(r.text, "/p1;a;4\n/p2;a;4\n");
}

#[test]
fn empty_command_list_leaves_store() {
    let r = update_store("/p1;a;3\n\n", &[], 10);
    assert_eq!(r.text, "/p1;a;3\n");
    assert_eq!(r.issues, vec![Diagnostic::NoCommand]);
    assert_eq!(r.resolved, None);
}

#[test]
fn incomplete_add_is_reported() {
    let c = Cmd::Add(ShortPath { short: Some("x".to_string()), path: None });
    let r = update_store("/p1;a;3\n", &[c], 10);
    assert_eq!(r.text, "/p1;a;3\n");
    assert_eq!(r.issues, vec![Diagnostic::MissingArgument]);
}

#[test]
fn only_the_first_command_is_applied() {
    let r = update_store("/p1;a;3\n", &[Cmd::Reset, Cmd::Rm("a".to_string())], 10);
    assert_eq!(r.text, "/p1;a;0\n");
}

#[test]
fn record_without_shortcut_keeps_its_fields_on_decrement() {
    let r = update_store("a;5\n", &[Cmd::Decr(1)], 10);
    assert_eq!(r.text, "a;4\n");
    assert_eq!(r.issues, vec![Diagnostic::NoShortcut(0)]);
}

#[test]
fn record_without_shortcut_keeps_its_fields_on_reset() {
    let r = update_store("a;5\n/b;x;3\n", &[Cmd::Reset], 10);
    assert_eq!(r.text, "a;0\n/b;x;0\n");
    assert_eq!(r.issues, vec![Diagnostic::NoShortcut(0)]);
}

#[test]
fn whitespace_line_after_success_is_dropped() {
    let mut st = SearchState {
        success: true,
        correct: None,
        prioritised: None,
        max_priory: 0,
        issues: Vec::new(),
    };
    let out = read_dline(&"   \t".chars().collect(), &Op::Reset, 10, false, &mut st, 3);
    assert!(out.is_empty());
    let out2 = read_dline(&"  /p;a;1 ".chars().collect(), &Op::Reset, 10, false, &mut st, 4);
    assert_eq!(out2.iter().collect::<String>(), "  /p;a;1 \n");
}

#[test]
fn read_dline_reads_its_line_as_given() {
    let mut st = SearchState {
        success: false,
        correct: None,
        prioritised: None,
        max_priory: 0,
        issues: Vec::new(),
    };
    let out = read_dline(&" /p;a;7".chars().collect(), &Op::Decr(2), 10, false, &mut st, 0);
    assert_eq!(out.iter().collect::<String>(), " /p;a;5\n");
    let del = read_dline(&" /p;a;b;7".chars().collect(), &Op::Del(" /p".chars().collect()), 10, false, &mut st, 1);
    assert!(del.is_empty());
    assert!(st.success);
}

#[test]
fn read_dline_reports_whitespace_only_line() {
    let mut st = SearchState {
        success: false,
        correct: None,
        prioritised: None,
        max_priory: 0,
        issues: Vec::new(),
    };
    let out = read_dline(&"  ".chars().collect(), &Op::Reset, 10, false, &mut st, 2);
    assert!(out.is_empty());
    assert_eq!(st.issues, vec![Diagnostic::MalformedLine(2)]);
}
