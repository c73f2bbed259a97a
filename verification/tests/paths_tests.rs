use desktop_catalog::errors::LauncherError;
use desktop_catalog::paths::{resolve_search_dirs, resolve_user_dir};
use desktop_catalog::shards::shard_ranges;

#[test]
fn search_path_maps_each_root() {
    let dirs = resolve_search_dirs(&Some(b"/tmp/sysA".to_vec()));
    assert_eq!(dirs, vec![b"/tmp/sysA/applications/".to_vec()]);
    let dirs = resolve_search_dirs(&Some(b"/a:/b".to_vec()));
    assert_eq!(
        dirs,
        vec![b"/a/applications/".to_vec(), b"/b/applications/".to_vec()]
    );
}

#[test]
fn search_path_keeps_empty_segments() {
    let dirs = resolve_search_dirs(&Some(b"/a::/b".to_vec()));
    assert_eq!(
        dirs,
        vec![
            b"/a/applications/".to_vec(),
            b"/applications/".to_vec(),
            b"/b/applications/".to_vec(),
        ]
    );
}

#[test]
fn unset_search_path_falls_back() {
    let dirs = resolve_search_dirs(&None);
    assert_eq!(dirs, vec![b"/usr/share/applications".to_vec()]);
}

#[test]
fn user_dir_prefers_data_home() {
    let dir = resolve_user_dir(&Some(b"/data".to_vec()), &Some(b"/home/user".to_vec()));
    assert_eq!(dir, Some(b"/data/applications/".to_vec()));
}

#[test]
fn user_dir_falls_back_to_home() {
    let dir = resolve_user_dir(&None, &Some(b"/home/user".to_vec()));
    assert_eq!(
        dir,
        Some(b"/home/user/.local/share/applications/".to_vec())
    );
}

#[test]
fn user_dir_absent_without_home() {
    assert_eq!(resolve_user_dir(&None, &None), None);
}

#[test]
fn shards_cover_range_in_order() {
    assert_eq!(shard_ranges(0), Vec::<(usize, usize)>::new());
    assert_eq!(shard_ranges(5), vec![(0, 1), (1, 2), (2, 3), (3, 4), (4, 5)]);
    assert_eq!(
        shard_ranges(12),
        vec![(0, 2), (2, 4), (4, 6), (6, 8), (8, 10), (10, 12)]
    );
    let ranges = shard_ranges(13);
    assert_eq!(ranges.first().unwrap().0, 0);
    assert_eq!(ranges.last().unwrap().1, 13);
    for w in ranges.windows(2) {
        assert_eq!(w[0].1, w[1].0);
    }
    for (lo, hi) in &ranges {
        assert!(lo < hi && hi - lo <= 2);
    }
}

#[test]
fn fatal_errors_match_propagation_policy() {
    assert!(LauncherError::Configuration.is_fatal());
    assert!(LauncherError::UserDirectory.is_fatal());
    assert!(LauncherError::RunnerSpawn.is_fatal());
    assert!(LauncherError::LaunchHandler.is_fatal());
    assert!(!LauncherError::DirectoryRead.is_fatal());
    assert!(!LauncherError::EntryRead.is_fatal());
    assert!(!LauncherError::RunnerOutput.is_fatal());
}
