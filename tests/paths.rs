use goto::paths::{dos2unix, normalize_path};

#[test]
fn drive_letter_is_lowered() {
    assert_eq!(normalize_path("D:/Windows\\PeRso", "/home/u"), "d:/Windows/PeRso");
}

#[test]
fn relative_path_joins_current_directory() {
    assert_eq!(normalize_path("proj", "/home/u"), "/home/u/proj");
}

#[test]
fn dots_stand_for_parent() {
    assert_eq!(normalize_path("..", "/home/u"), "/home");
    assert_eq!(normalize_path("../x", "/home/u"), "/home/x");
}

#[test]
fn empty_path_is_current_directory() {
    assert_eq!(normalize_path("", "/home/u"), "/home/u");
}

#[test]
fn trailing_slash_is_dropped() {
    assert_eq!(normalize_path("/tmp/", "/home"), "/tmp");
}

#[test]
fn windows_current_directory_is_rewritten() {
    assert_eq!(normalize_path("Proj", "C:\\Users\\Me"), "c:/Users/Me/Proj");
}

#[test]
fn drive_path_becomes_mount_on_unix() {
    assert_eq!(dos2unix("C:/Users/me".to_string(), true), "/mnt/C/Users/me");
}

#[test]
fn network_path_keeps_from_host_on_unix() {
    assert_eq!(dos2unix("//wsl.localhost/Ubuntu/home".to_string(), true), "wsl.localhost/Ubuntu/home");
}

#[test]
fn mount_becomes_drive_elsewhere() {
    assert_eq!(dos2unix("/mnt/c/Users".to_string(), false), "c:/Users");
    assert_eq!(dos2unix("/mnt/".to_string(), false), "c:");
}

#[test]
fn other_paths_are_kept() {
    assert_eq!(dos2unix("/home/me".to_string(), true), "/home/me");
    assert_eq!(dos2unix("/home/me".to_string(), false), "/home/me");
}
