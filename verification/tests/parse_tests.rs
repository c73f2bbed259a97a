use desktop_catalog::parse::{base_name, is_desktop_file, parse_desktop_file, row_for};

#[test]
fn label_combines_name_and_exec() {
    let path = b"/tmp/sysA/applications/foo.desktop".to_vec();
    let content = b"Name=Foo\nExec=foo --flag\n".to_vec();
    let entry = parse_desktop_file(&path, &content).expect("both fields present");
    assert_eq!(entry.display_label, b"Foo (foo --flag)".to_vec());
    assert_eq!(entry.source_path, path);
}

#[test]
fn missing_exec_gives_no_entry() {
    let path = b"/tmp/sysA/applications/bar.desktop".to_vec();
    let content = b"Name=Bar\n".to_vec();
    assert!(parse_desktop_file(&path, &content).is_none());
    assert!(row_for(&path, &content).is_none());
}

#[test]
fn missing_name_gives_no_entry() {
    let path = b"/tmp/sysA/applications/bar.desktop".to_vec();
    let content = b"Exec=bar\n".to_vec();
    assert!(parse_desktop_file(&path, &content).is_none());
}

#[test]
fn empty_file_gives_no_entry() {
    let path = b"/tmp/sysA/applications/bar.desktop".to_vec();
    let content = Vec::new();
    assert!(parse_desktop_file(&path, &content).is_none());
}

#[test]
fn first_occurrence_of_each_field_wins() {
    let path = b"/apps/a.desktop".to_vec();
    let content = b"Name=First\nName=Second\nExec=one\nExec=two\n".to_vec();
    let entry = parse_desktop_file(&path, &content).unwrap();
    assert_eq!(entry.display_label, b"First (one)".to_vec());
}

#[test]
fn exec_seen_before_name_still_first() {
    let path = b"/apps/a.desktop".to_vec();
    let content = b"Exec=one\nExec=two\nName=n\nExec=three\n".to_vec();
    let entry = parse_desktop_file(&path, &content).unwrap();
    assert_eq!(entry.display_label, b"n (one)".to_vec());
}

#[test]
fn crlf_line_endings_are_stripped() {
    let path = b"/apps/a.desktop".to_vec();
    let content = b"Name=Foo\r\nExec=x\r\n".to_vec();
    let entry = parse_desktop_file(&path, &content).unwrap();
    assert_eq!(entry.display_label, b"Foo (x)".to_vec());
}

#[test]
fn value_keeps_later_equals_signs() {
    let path = b"/apps/a.desktop".to_vec();
    let content = b"Name=a=b\nExec=c --opt=d\n".to_vec();
    let entry = parse_desktop_file(&path, &content).unwrap();
    assert_eq!(entry.display_label, b"a=b (c --opt=d)".to_vec());
}

#[test]
fn other_extension_is_skipped() {
    let path = b"/apps/foo.txt".to_vec();
    let content = b"Name=Foo\nExec=foo\n".to_vec();
    assert!(parse_desktop_file(&path, &content).is_none());
}

#[test]
fn bare_extension_has_no_stem() {
    let path = b"/apps/.desktop".to_vec();
    let content = b"Name=Foo\nExec=foo\n".to_vec();
    assert!(parse_desktop_file(&path, &content).is_none());
}

#[test]
fn extension_test_on_names() {
    assert!(is_desktop_file(&b"foo.desktop".to_vec()));
    assert!(is_desktop_file(&b"a.b.desktop".to_vec()));
    assert!(!is_desktop_file(&b".desktop".to_vec()));
    assert!(!is_desktop_file(&b"foo.desktop.bak".to_vec()));
    assert!(!is_desktop_file(&b"foodesktop".to_vec()));
}

#[test]
fn base_name_takes_suffix_after_last_slash() {
    assert_eq!(base_name(&b"/a/b/c.desktop".to_vec()), b"c.desktop".to_vec());
    assert_eq!(base_name(&b"plain".to_vec()), b"plain".to_vec());
    assert_eq!(base_name(&b"/trailing/".to_vec()), b"".to_vec());
}

#[test]
fn row_key_is_base_name() {
    let path = b"/tmp/sysA/applications/foo.desktop".to_vec();
    let content = b"Name=Foo\nExec=foo --flag\n".to_vec();
    let row = row_for(&path, &content).unwrap();
    assert_eq!(row.key, b"foo.desktop".to_vec());
    assert_eq!(row.entry.display_label, b"Foo (foo --flag)".to_vec());
    assert_eq!(row.entry.source_path, path);
}
