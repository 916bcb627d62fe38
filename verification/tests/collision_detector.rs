use refac::collision_detector::{
    blocking_collisions, Collision, CollisionDetector, CollisionType, ExistingPath,
};
use refac::model::{ItemType, RenameItem};

fn s(text: &str) -> String {
    text.to_string()
}

#[test]
fn test_no_collisions() {
    let mut detector = CollisionDetector::new();

    detector.add_rename(s("/test/old1.txt"), s("/test/new1.txt"));
    detector.add_rename(s("/test/old2.txt"), s("/test/new2.txt"));

    let collisions = detector.detect_collisions();
    assert!(collisions.is_empty());
    assert!(!detector.has_collisions());
}

#[test]
fn test_multiple_sources_same_target() {
    let mut detector = CollisionDetector::new();

    detector.add_rename(s("/test/old1.txt"), s("/test/target.txt"));
    detector.add_rename(s("/test/old2.txt"), s("/test/target.txt"));

    let collisions = detector.detect_collisions();
    assert_eq!(collisions.len(), 1);
    assert_eq!(collisions[0].collision_type, CollisionType::MultipleSourcesSameTarget);
    assert!(detector.has_collisions());
}

#[test]
fn test_target_already_exists() {
    let mut detector = CollisionDetector::new();

    let existing_file = s("/tmp/work/existing.txt");
    detector.add_existing_path(&existing_file, ItemType::File);
    detector.add_rename(s("/tmp/work/source.txt"), existing_file.clone());

    let collisions = detector.detect_collisions();
    assert_eq!(collisions.len(), 1);
    assert_eq!(collisions[0].collision_type, CollisionType::TargetAlreadyExists);
}

#[test]
fn test_source_equals_target() {
    let mut detector = CollisionDetector::new();

    let path = s("/test/same.txt");
    detector.add_rename(path.clone(), path);

    let collisions = detector.detect_collisions();
    assert_eq!(collisions.len(), 1);
    assert_eq!(collisions[0].collision_type, CollisionType::SourceEqualsTarget);
}

#[test]
fn test_file_to_directory_collision() {
    let mut detector = CollisionDetector::new();

    let existing_dir = s("/tmp/work/existing_dir");
    detector.add_existing_path(&existing_dir, ItemType::Directory);
    detector.add_rename(s("/tmp/work/source.txt"), existing_dir.clone());

    let collisions = detector.detect_collisions();
    assert_eq!(collisions.len(), 1);
    assert_eq!(collisions[0].collision_type, CollisionType::FileToDirectory);
}

#[test]
fn test_directory_to_file_collision() {
    let mut detector = CollisionDetector::new();

    let existing_file = s("/tmp/work/existing.txt");
    detector.add_existing_path(&existing_file, ItemType::File);
    let source_dir = s("/tmp/work/source_dir");
    detector.add_existing_path(&source_dir, ItemType::Directory);

    detector.add_rename(source_dir, existing_file.clone());

    let collisions = detector.detect_collisions();
    assert_eq!(collisions.len(), 1);
    assert_eq!(collisions[0].collision_type, CollisionType::DirectoryToFile);
}

#[test]
fn test_collision_summary() {
    let mut detector = CollisionDetector::new();

    detector.add_rename(s("/test/old1.txt"), s("/test/target.txt"));
    detector.add_rename(s("/test/old2.txt"), s("/test/target.txt"));

    let same_path = s("/test/same.txt");
    detector.add_rename(same_path.clone(), same_path);

    detector.detect_collisions();

    let summary = detector.get_collision_summary();
    assert_eq!(summary.get(&CollisionType::MultipleSourcesSameTarget), Some(1));
    assert_eq!(summary.get(&CollisionType::SourceEqualsTarget), Some(1));
    assert_eq!(summary.len(), 2);
}

#[test]
fn test_collision_report() {
    let mut detector = CollisionDetector::new();

    detector.add_rename(s("/test/old1.txt"), s("/test/target.txt"));
    detector.add_rename(s("/test/old2.txt"), s("/test/target.txt"));

    detector.detect_collisions();

    let report = detector.generate_report();
    assert!(report.contains("Collision Report"));
    assert!(report.contains("MultipleSourcesSameTarget"));
    assert!(report.contains("target.txt"));
}

#[test]
fn test_no_collisions_report() {
    let detector = CollisionDetector::new();
    let report = detector.generate_report();
    assert_eq!(report, "No collisions detected.");
}

#[test]
fn test_clear() {
    let mut detector = CollisionDetector::new();

    detector.add_rename(s("/test/old.txt"), s("/test/new.txt"));
    detector.add_existing_path("/test/existing.txt", ItemType::File);
    detector.detect_collisions();

    assert!(detector.target_count() > 0);
    assert!(detector.existing_count() > 0);

    detector.clear();

    assert_eq!(detector.target_count(), 0);
    assert_eq!(detector.existing_count(), 0);
    assert_eq!(detector.collision_count(), 0);
}

#[test]
fn report_text_is_exact() {
    let mut detector = CollisionDetector::new();
    detector.add_rename(s("/t/a"), s("/t/x"));
    detector.add_rename(s("/t/b"), s("/t/x"));
    detector.add_rename(s("/t/same"), s("/t/same"));
    detector.detect_collisions();

    let mut expected = String::new();
    expected.push_str("Collision Report (2 issues found):\n");
    expected.push_str(&"=".repeat(50));
    expected.push('\n');
    expected.push_str("  MultipleSourcesSameTarget: 1 issue(s)\n");
    expected.push_str("  SourceEqualsTarget: 1 issue(s)\n");
    expected.push('\n');
    expected.push_str(
        "1. Multiple files/directories trying to rename to the same target: /t/x (sources: /t/a, /t/b)\n",
    );
    expected.push_str("   Type: MultipleSourcesSameTarget\n");
    expected.push_str("   Target: /t/x\n");
    expected.push_str("   Sources:\n     - /t/a\n     - /t/b\n\n");
    expected.push_str("2. Source and target are identical: /t/same\n");
    expected.push_str("   Type: SourceEqualsTarget\n");
    expected.push_str("   Target: /t/same\n");
    expected.push_str("   Source: /t/same\n\n");
    assert_eq!(detector.generate_report(), expected);
}

#[test]
fn shared_target_is_reported_once_with_both_sources() {
    let mut detector = CollisionDetector::new();
    detector.add_existing_path("/p/a", ItemType::File);
    detector.add_existing_path("/p/b", ItemType::File);
    detector.add_rename(s("/p/a"), s("/p/c"));
    detector.add_rename(s("/p/other"), s("/p/else"));
    detector.add_rename(s("/p/b"), s("/p/c"));

    let collisions = detector.detect_collisions();
    let hits: Vec<&Collision> = collisions
        .iter()
        .filter(|c| {
            c.collision_type == CollisionType::MultipleSourcesSameTarget && c.target_path == "/p/c"
        })
        .collect();
    assert_eq!(hits.len(), 1);
    assert_eq!(hits[0].source_paths, vec![s("/p/a"), s("/p/b")]);
    assert_eq!(blocking_collisions(&collisions).len(), 1);
}

#[test]
fn a_rename_recorded_twice_counts_once() {
    let mut detector = CollisionDetector::new();
    detector.add_rename(s("/p/a"), s("/p/b"));
    detector.add_rename(s("/p/a"), s("/p/b"));
    assert_eq!(detector.target_count(), 1);
    assert!(detector.detect_collisions().is_empty());
}

#[test]
fn a_target_that_is_renamed_away_is_no_conflict() {
    let mut detector = CollisionDetector::new();
    detector.add_existing_path("/p/a", ItemType::File);
    detector.add_existing_path("/p/b", ItemType::File);
    detector.add_rename(s("/p/a"), s("/p/b"));
    detector.add_rename(s("/p/b"), s("/p/c"));
    assert!(detector.detect_collisions().is_empty());
}

#[test]
fn an_existing_path_keeps_its_first_kind() {
    let mut detector = CollisionDetector::new();
    detector.add_existing_path("/p/x", ItemType::Directory);
    detector.add_existing_path("/p/x", ItemType::File);
    assert_eq!(detector.existing_count(), 1);
    detector.add_rename(s("/p/y"), s("/p/x"));
    let collisions = detector.detect_collisions();
    assert_eq!(collisions.len(), 1);
    assert_eq!(collisions[0].collision_type, CollisionType::FileToDirectory);
    assert_eq!(collisions[0].description, "Target path already exists: /p/x");
}

#[test]
fn case_only_difference_is_found_where_case_does_not_count() {
    let mut detector = CollisionDetector::new();
    detector.add_rename(s("/p/a"), s("/p/Name"));
    detector.add_rename(s("/p/b"), s("/p/name"));
    detector.add_rename(s("/p/c"), s("/p/other"));
    assert!(detector.detect_collisions().is_empty());

    detector.set_case_insensitive(true);
    let collisions = detector.detect_collisions();
    assert_eq!(collisions.len(), 2);
    assert_eq!(collisions[0].collision_type, CollisionType::CaseOnlyDifference);
    assert_eq!(collisions[0].target_path, "/p/Name");
    assert_eq!(collisions[1].target_path, "/p/name");
    assert_eq!(
        collisions[0].description,
        "Case-only difference detected on case-insensitive filesystem: /p/Name"
    );
    assert_eq!(detector.get_collisions_by_type(CollisionType::CaseOnlyDifference).len(), 2);
    assert_eq!(detector.get_collisions().len(), 2);
}

#[test]
fn no_ops_never_block() {
    let mut detector = CollisionDetector::new();
    detector.add_existing_path("/p/same", ItemType::File);
    detector.add_rename(s("/p/same"), s("/p/same"));
    let collisions = detector.detect_collisions();
    assert_eq!(collisions.len(), 1);
    assert_eq!(collisions[0].collision_type, CollisionType::SourceEqualsTarget);
    assert!(blocking_collisions(&collisions).is_empty());
}

#[test]
fn add_renames_records_every_item() {
    let items = vec![
        RenameItem {
            original_path: s("/p/a_old"),
            new_path: s("/p/a_new"),
            item_type: ItemType::File,
            depth: 1,
        },
        RenameItem {
            original_path: s("/p/b_old"),
            new_path: s("/p/a_new"),
            item_type: ItemType::File,
            depth: 1,
        },
    ];
    let mut detector = CollisionDetector::new();
    detector.add_renames(&items);
    assert_eq!(detector.target_count(), 1);
    let collisions = detector.detect_collisions();
    assert_eq!(collisions.len(), 1);
    assert_eq!(collisions[0].source_paths.len(), 2);
    assert_eq!(CollisionType::DirectoryToFile.name(), "DirectoryToFile");
}

#[test]
fn test_scan_existing_paths() {
    let mut detector = CollisionDetector::new();
    let found = |path: &str, kind: ItemType| ExistingPath { path: path.to_string(), kind };
    let snapshot = vec![
        found("/tmp/root", ItemType::Directory),
        found("/tmp/root/file1.txt", ItemType::File),
        found("/tmp/root/file2.txt", ItemType::File),
        found("/tmp/root/subdir", ItemType::Directory),
        found("/tmp/root/subdir/file3.txt", ItemType::File),
    ];

    detector.scan_existing_paths(&snapshot);

    assert!(detector.existing_count() >= 4);
    assert_eq!(detector.existing_count(), 5);
    // Scanning again records nothing twice.
    detector.scan_existing_paths(&snapshot);
    assert_eq!(detector.existing_count(), 5);

    detector.add_rename("/tmp/root/a.txt".to_string(), "/tmp/root/subdir".to_string());
    let collisions = detector.detect_collisions();
    assert_eq!(collisions.len(), 1);
    assert_eq!(collisions[0].collision_type, CollisionType::FileToDirectory);
}
