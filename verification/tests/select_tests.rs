use desktop_catalog::catalog::build_catalog;
use desktop_catalog::parse::row_for;
use desktop_catalog::text::trim_ascii;

#[test]
fn runner_round_trip_selects_matching_entry() {
    // A runner such as /bin/cat hands one piped label back with its newline;
    // the trimmed echo must select the entry it came from.
    let path = b"/tmp/sysA/applications/foo.desktop".to_vec();
    let content = b"Name=Foo\nExec=foo --flag\n".to_vec();
    let worker = vec![row_for(&path, &content).unwrap()];
    let catalog = build_catalog(&vec![worker], &Vec::new());
    let piped = catalog.joined_labels();
    assert_eq!(piped, b"Foo (foo --flag)\n".to_vec());
    let chosen = trim_ascii(&piped);
    assert_eq!(chosen, b"Foo (foo --flag)".to_vec());
    let entry = catalog.find_by_label(&chosen).unwrap();
    assert_eq!(entry.source_path, path);
}

#[test]
fn trim_removes_surrounding_whitespace_only() {
    assert_eq!(trim_ascii(&b"  a b \n".to_vec()), b"a b".to_vec());
    assert_eq!(trim_ascii(&b"\r\nFoo (x)\r\n".to_vec()), b"Foo (x)".to_vec());
    assert_eq!(trim_ascii(&b"\t \n\r".to_vec()), Vec::<u8>::new());
    assert_eq!(trim_ascii(&Vec::new()), Vec::<u8>::new());
    assert_eq!(trim_ascii(&b"solid".to_vec()), b"solid".to_vec());
}

#[test]
fn unmatched_runner_output_selects_nothing() {
    let path = b"/tmp/sysA/applications/foo.desktop".to_vec();
    let content = b"Name=Foo\nExec=foo\n".to_vec();
    let worker = vec![row_for(&path, &content).unwrap()];
    let catalog = build_catalog(&vec![worker], &Vec::new());
    let chosen = trim_ascii(&b"something else\n".to_vec());
    assert!(catalog.find_by_label(&chosen).is_none());
}
