use goto::report::format_state;

#[test]
fn state_aligns_columns() {
    let out = format_state("/a;x;10\n/bb;yy;zz;5\n");
    assert_eq!(out, "/a  x     10\n/bb yy zz 5\n");
}

#[test]
fn state_of_empty_store_is_empty() {
    assert_eq!(format_state(""), "");
}

#[test]
fn state_handles_crlf_and_missing_final_break() {
    assert_eq!(format_state("/a;x;1\r\n/b;y;2"), "/a x 1\n/b y 2\n");
}
