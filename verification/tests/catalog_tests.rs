use desktop_catalog::catalog::{build_catalog, Catalog, Row};
use desktop_catalog::entry::Entry;
use desktop_catalog::parse::row_for;

fn row(key: &[u8], label: &[u8], path: &[u8]) -> Row {
    Row {
        key: key.to_vec(),
        entry: Entry { display_label: label.to_vec(), source_path: path.to_vec() },
    }
}

#[test]
fn listing_single_system_entry() {
    let path = b"/tmp/sysA/applications/foo.desktop".to_vec();
    let content = b"Name=Foo\nExec=foo --flag\n".to_vec();
    let worker = vec![row_for(&path, &content).unwrap()];
    let catalog = build_catalog(&vec![worker], &Vec::new());
    assert_eq!(catalog.len(), 1);
    assert_eq!(catalog.labels(), vec![b"Foo (foo --flag)".to_vec()]);
    assert_eq!(catalog.joined_labels(), b"Foo (foo --flag)\n".to_vec());
}

#[test]
fn user_entry_overrides_system_entry() {
    let sys_path = b"/tmp/sysA/applications/foo.desktop".to_vec();
    let sys_content = b"Name=Foo\nExec=foo --flag\n".to_vec();
    let usr_path = b"/home/user/.local/share/applications/foo.desktop".to_vec();
    let usr_content = b"Name=Foo2\nExec=foo2\n".to_vec();
    let worker = vec![row_for(&sys_path, &sys_content).unwrap()];
    let usr = vec![row_for(&usr_path, &usr_content).unwrap()];
    let catalog = build_catalog(&vec![worker], &usr);
    assert_eq!(catalog.len(), 1);
    assert_eq!(catalog.labels(), vec![b"Foo2 (foo2)".to_vec()]);
    let chosen = catalog.find_by_label(&b"Foo2 (foo2)".to_vec()).unwrap();
    assert_eq!(chosen.source_path, usr_path);
}

#[test]
fn invalid_file_contributes_nothing() {
    let good_path = b"/tmp/sysA/applications/foo.desktop".to_vec();
    let good = b"Name=Foo\nExec=foo\n".to_vec();
    let bad_path = b"/tmp/sysA/applications/bar.desktop".to_vec();
    let bad = b"Name=Bar\n".to_vec();
    let mut worker = Vec::new();
    if let Some(r) = row_for(&good_path, &good) {
        worker.push(r);
    }
    if let Some(r) = row_for(&bad_path, &bad) {
        worker.push(r);
    }
    let catalog = build_catalog(&vec![worker], &Vec::new());
    assert_eq!(catalog.len(), 1);
    assert!(catalog.find_by_label(&b"Bar ()".to_vec()).is_none());
}

#[test]
fn insert_replaces_in_place() {
    let mut catalog = Catalog::new();
    catalog.insert(row(b"a.desktop", b"A (a)", b"/s/a.desktop"));
    catalog.insert(row(b"b.desktop", b"B (b)", b"/s/b.desktop"));
    catalog.insert(row(b"a.desktop", b"A2 (a2)", b"/u/a.desktop"));
    assert_eq!(catalog.len(), 2);
    assert_eq!(catalog.labels(), vec![b"A2 (a2)".to_vec(), b"B (b)".to_vec()]);
}

#[test]
fn later_worker_wins_for_shared_key() {
    let w1 = vec![row(b"a.desktop", b"A (sys1)", b"/sys1/a.desktop")];
    let w2 = vec![row(b"a.desktop", b"A (sys2)", b"/sys2/a.desktop")];
    let catalog = build_catalog(&vec![w1, w2], &Vec::new());
    assert_eq!(catalog.len(), 1);
    assert_eq!(catalog.labels(), vec![b"A (sys2)".to_vec()]);
}

#[test]
fn catalog_size_bounded_by_inputs() {
    let w1 = vec![
        row(b"a.desktop", b"A (a)", b"/s/a.desktop"),
        row(b"b.desktop", b"B (b)", b"/s/b.desktop"),
    ];
    let w2 = vec![
        row(b"b.desktop", b"B2 (b2)", b"/t/b.desktop"),
        row(b"c.desktop", b"C (c)", b"/t/c.desktop"),
    ];
    let usr = vec![row(b"a.desktop", b"A3 (a3)", b"/u/a.desktop")];
    let catalog = build_catalog(&vec![w1, w2], &usr);
    assert!(catalog.len() <= 5);
    assert_eq!(catalog.len(), 3);
}

#[test]
fn listing_order_stable_across_builds() {
    let make = || {
        vec![
            vec![
                row(b"a.desktop", b"A (a)", b"/s/a.desktop"),
                row(b"b.desktop", b"B (b)", b"/s/b.desktop"),
            ],
            vec![row(b"c.desktop", b"C (c)", b"/t/c.desktop")],
        ]
    };
    let usr = vec![row(b"b.desktop", b"B2 (b2)", b"/u/b.desktop")];
    let first = build_catalog(&make(), &usr);
    let second = build_catalog(&make(), &usr);
    assert_eq!(first.labels(), second.labels());
    assert_eq!(
        first.labels(),
        vec![b"A (a)".to_vec(), b"B2 (b2)".to_vec(), b"C (c)".to_vec()]
    );
}

#[test]
fn last_user_row_wins_for_shared_key() {
    let sys = vec![vec![row(b"a.desktop", b"A (sys)", b"/s/a.desktop")]];
    let usr = vec![
        row(b"a.desktop", b"A (u1)", b"/u1/a.desktop"),
        row(b"a.desktop", b"A (u2)", b"/u2/a.desktop"),
    ];
    let catalog = build_catalog(&sys, &usr);
    assert_eq!(catalog.len(), 1);
    assert_eq!(catalog.labels(), vec![b"A (u2)".to_vec()]);
    let found = catalog.find_by_label(&b"A (u2)".to_vec()).unwrap();
    assert_eq!(found.source_path, b"/u2/a.desktop".to_vec());
}

#[test]
fn find_by_label_takes_first_match() {
    let w = vec![
        row(b"a.desktop", b"Same (x)", b"/s/a.desktop"),
        row(b"b.desktop", b"Same (x)", b"/s/b.desktop"),
    ];
    let catalog = build_catalog(&vec![w], &Vec::new());
    let found = catalog.find_by_label(&b"Same (x)".to_vec()).unwrap();
    assert_eq!(found.source_path, b"/s/a.desktop".to_vec());
}

#[test]
fn find_by_label_misses_cleanly() {
    let catalog = build_catalog(&Vec::new(), &Vec::new());
    assert_eq!(catalog.len(), 0);
    assert!(catalog.find_by_label(&b"absent".to_vec()).is_none());
    assert_eq!(catalog.joined_labels(), Vec::<u8>::new());
}
