use goto::commands::{path2dir, AppendDefault, Cmd, ShortPath, ToCmd};
use goto::diagnostic::{Diagnostic, ErrorKind};

#[test]
fn append_to_complete_add_is_refused_and_keeps_values() {
    let mut c = Cmd::Add(ShortPath { short: Some("s".to_string()), path: Some("/p".to_string()) });
    assert_eq!(c.append("extra".to_string()), Err(Diagnostic::TooManyArguments));
    assert_eq!(c.label(), "<add s /p>");
    assert_eq!(Diagnostic::TooManyArguments.kind(), ErrorKind::User);
}

#[test]
fn append_fills_shortcut_then_path() {
    let mut c = "-get".to_cmd().unwrap();
    assert_eq!(c.append("proj".to_string()), Ok(()));
    assert_eq!(c.label(), "<goto proj >");
    assert_eq!(c.append("src".to_string()), Ok(()));
    assert_eq!(c.label(), "<goto proj src>");
    assert_eq!(c.append("more".to_string()), Err(Diagnostic::TooManyArguments));
}

#[test]
fn reset_takes_no_argument() {
    let mut c = Cmd::Reset;
    assert_eq!(c.append("1".to_string()), Err(Diagnostic::NoArgumentExpected));
    assert_eq!(c.label(), "<reset>");
}

#[test]
fn decrement_parses_its_amount() {
    let mut c = "-decrement".to_cmd().unwrap();
    assert_eq!(c.append("x1".to_string()), Err(Diagnostic::NotANumber));
    assert_eq!(c.label(), "<decr 0>");
    assert_eq!(c.append("+12".to_string()), Ok(()));
    assert_eq!(c.label(), "<decr 12>");
    assert_eq!(c.append("3".to_string()), Err(Diagnostic::TooManyArguments));
}

#[test]
fn decrement_refuses_values_beyond_u32() {
    let mut c = Cmd::Decr(0);
    assert_eq!(c.append("4294967296".to_string()), Err(Diagnostic::NotANumber));
    assert_eq!(c.append("4294967295".to_string()), Ok(()));
    assert_eq!(c.label(), "<decr 4294967295>");
}

#[test]
fn remove_and_delete_take_one_argument() {
    let mut r = "-remove".to_cmd().unwrap();
    assert_eq!(r.append("a".to_string()), Ok(()));
    assert_eq!(r.label(), "<rm a>");
    assert_eq!(r.append("b".to_string()), Err(Diagnostic::TooManyArguments));
    let mut d = String::from("-delete").to_cmd().unwrap();
    assert_eq!(d.append("/p".to_string()), Ok(()));
    assert_eq!(d.label(), "<del /p>");
}

#[test]
fn keywords_name_commands() {
    assert_eq!("-add".to_cmd().unwrap().label(), "<add  >");
    assert_eq!("-edit".to_cmd().unwrap().label(), "<edit  >");
    assert_eq!("-reset".to_cmd().unwrap().label(), "<reset>");
    assert_eq!("-get".to_cmd().unwrap().label(), "<goto  >");
    assert_eq!(Cmd::default().label(), "<goto  >");
}

#[test]
fn path2dir_takes_last_segment() {
    assert_eq!(path2dir("C:/Users/username/Documents"), "Documents");
    assert_eq!(path2dir("a\\b/c\\d"), "d");
    assert_eq!(path2dir("plain"), "plain");
    assert_eq!(path2dir("/trailing/"), "");
}

#[test]
fn append_default_fills_add_from_current_directory() {
    let mut c = "-add".to_cmd().unwrap();
    Some(&mut c).append_default("/home/u/proj");
    assert_eq!(c.label(), "<add proj /home/u/proj>");
}

#[test]
fn append_default_fills_only_missing_path() {
    let mut c = Cmd::Edit(ShortPath { short: Some("k".to_string()), path: None });
    c.fill_defaults("/w");
    assert_eq!(c.label(), "<edit k /w>");
    let mut g = "-get".to_cmd().unwrap();
    Some(&mut g).append_default("/w");
    assert_eq!(g.label(), "<goto  >");
    None::<&mut Cmd>.append_default("/w");
}

#[test]
fn awaits_path_after_shortcut() {
    let mut c = "-add".to_cmd().unwrap();
    assert!(!c.awaits_path());
    c.append("s".to_string()).unwrap();
    assert!(c.awaits_path());
}

#[test]
fn diagnostics_have_kinds() {
    assert_eq!(Diagnostic::MalformedLine(3).kind(), ErrorKind::Data);
    assert_eq!(Diagnostic::BadPriority(0).kind(), ErrorKind::Data);
    assert_eq!(Diagnostic::PriorityOverflow(0).kind(), ErrorKind::Internal);
    assert_eq!(Diagnostic::NoCommand.kind(), ErrorKind::Internal);
    assert_eq!(Diagnostic::ShortcutExists.kind(), ErrorKind::User);
}

#[test]
fn unknown_keyword_is_refused() {
    assert_eq!("-unknown".to_cmd().err(), Some(Diagnostic::UnknownCommand));
    assert_eq!(String::from("add").to_cmd().err(), Some(Diagnostic::UnknownCommand));
    assert_eq!(Diagnostic::UnknownCommand.kind(), ErrorKind::Internal);
}

#[test]
fn append_default_leaves_complete_commands() {
    let mut c = Cmd::Add(ShortPath { short: Some("s".to_string()), path: Some("/p".to_string()) });
    Some(&mut c).append_default("/w");
    assert_eq!(c.label(), "<add s /p>");
    let mut r = Cmd::Rm("x".to_string());
    Some(&mut r).append_default("/w");
    assert_eq!(r.label(), "<rm x>");
}
