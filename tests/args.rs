use goto::args::parse_args;
use goto::diagnostic::Diagnostic;

fn toks(v: &[&str]) -> Vec<String> {
    v.iter().map(|s| s.to_string()).collect()
}

fn labels(v: &[goto::commands::Cmd]) -> Vec<String> {
    v.iter().map(|c| c.label()).collect()
}

#[test]
fn add_takes_shortcut_and_path() {
    let p = parse_args(&toks(&["-add", "name", "/p"]), "/home/u");
    assert_eq!(labels(&p.cmds), vec!["<add name /p>"]);
    assert!(p.issues.is_empty());
}

#[test]
fn add_path_is_made_absolute() {
    let p = parse_args(&toks(&["-a", "name", "rel"]), "/home/u");
    assert_eq!(labels(&p.cmds), vec!["<add name /home/u/rel>"]);
}

#[test]
fn bare_add_uses_current_directory() {
    let p = parse_args(&toks(&["-a"]), "/home/u/proj");
    assert_eq!(labels(&p.cmds), vec!["<add proj /home/u/proj>"]);
}

#[test]
fn no_tokens_is_a_lookup() {
    let p = parse_args(&toks(&[]), "/h");
    assert_eq!(labels(&p.cmds), vec!["<goto  >"]);
    assert!(!p.get);
}

#[test]
fn shortcut_and_subpath() {
    let p = parse_args(&toks(&["proj", "src"]), "/h");
    assert_eq!(labels(&p.cmds), vec!["<goto proj src>"]);
}

#[test]
fn flags_are_set_apart() {
    let p = parse_args(&toks(&["-c", "proj", "!"]), "/h");
    assert_eq!(labels(&p.cmds), vec!["<goto proj >"]);
    assert_eq!(p.flags, vec!["-code".to_string(), "-noclear".to_string()]);
}

#[test]
fn excess_argument_is_reported() {
    let p = parse_args(&toks(&["-add", "a", "/b", "c"]), "/h");
    assert_eq!(labels(&p.cmds), vec!["<add a /b>"]);
    assert_eq!(p.issues, vec![Diagnostic::TooManyArguments]);
}

#[test]
fn get_option_marks_lookup() {
    let p = parse_args(&toks(&["-g", "proj"]), "/h");
    assert!(p.get);
    assert_eq!(labels(&p.cmds), vec!["<goto proj >"]);
}

#[test]
fn decrement_and_remove() {
    let p = parse_args(&toks(&["-decr", "5"]), "/h");
    assert_eq!(labels(&p.cmds), vec!["<decr 5>"]);
    let q = parse_args(&toks(&["-rm", "x"]), "/h");
    assert_eq!(labels(&q.cmds), vec!["<rm x>"]);
}

#[test]
fn features_ends_reading() {
    let p = parse_args(&toks(&["-reset", "features", "-rm", "x"]), "/h");
    assert_eq!(labels(&p.cmds), vec!["<reset>"]);
}
