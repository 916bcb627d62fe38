use refac::cli::{Args, Mode, OutputFormat, ProgressMode, RootStatus};
use refac::collision_detector::{Collision, CollisionDetector, CollisionType};
use refac::model::{ItemType, RenameItem};
use refac::rename_engine::{
    ContentAction, EntryKind, Environment, RenameEngine, ScannedEntry, WalkEntry,
};

fn args(root: &str, old: &str, new: &str) -> Args {
    Args {
        root_dir: root.to_string(),
        old_string: old.to_string(),
        new_string: new.to_string(),
        dry_run: false,
        force: false,
        verbose: false,
        follow_symlinks: false,
        backup: false,
        files_only: false,
        dirs_only: false,
        names_only: false,
        content_only: false,
        max_depth: 0,
        exclude_patterns: vec![],
        include_patterns: vec![],
        format: OutputFormat::Human,
        threads: 0,
        progress: ProgressMode::Auto,
        ignore_case: false,
        use_regex: false,
    }
}

fn env() -> Environment {
    Environment {
        root: RootStatus::Directory,
        available_parallelism: Some(8),
        stdout_is_terminal: true,
    }
}

fn engine(args: Args) -> RenameEngine {
    RenameEngine::new(args, env()).unwrap()
}

fn entry(path: &str, kind: EntryKind, depth: usize) -> WalkEntry {
    let file_name = path.rsplit('/').next().map(|name| name.to_string());
    WalkEntry { path: path.to_string(), file_name, kind, depth }
}

fn scanned(path: &str, kind: EntryKind, depth: usize, data: Option<&[u8]>) -> ScannedEntry {
    ScannedEntry { entry: entry(path, kind, depth), data: data.map(|bytes| bytes.to_vec()) }
}

fn item(from: &str, new: &str, item_type: ItemType, depth: usize) -> RenameItem {
    RenameItem {
        original_path: from.to_string(),
        new_path: new.to_string(),
        item_type,
        depth,
    }
}

#[test]
fn an_engine_is_made_from_valid_arguments() {
    let mut a = args("proj", "old", "new");
    a.max_depth = 3;
    a.backup = true;
    a.include_patterns = vec!["*.rs".to_string()];
    let engine = engine(a);
    assert_eq!(engine.config.root_dir, "proj");
    assert_eq!(engine.config.old_string, "old");
    assert_eq!(engine.config.new_string, "new");
    assert!(engine.config.backup);
    assert_eq!(engine.mode, Mode::Full);
    assert_eq!(engine.max_depth, Some(3));
    assert_eq!(engine.thread_count, 8);
    assert!(engine.show_progress);
    assert_eq!(engine.include_patterns, vec!["*.rs".to_string()]);
    assert_eq!(engine.detector.max_sample_size, 8192);
    assert_eq!(engine.detector.binary_threshold_percent, 30);
}

#[test]
fn an_engine_is_refused_with_the_message_of_the_broken_rule() {
    let missing = Environment {
        root: RootStatus::Missing,
        available_parallelism: None,
        stdout_is_terminal: false,
    };
    assert_eq!(
        RenameEngine::new(args("proj", "old", "new"), missing).unwrap_err(),
        "Root directory does not exist: proj"
    );
    assert_eq!(
        RenameEngine::new(args("proj", "", "new"), env()).unwrap_err(),
        "Old string cannot be empty"
    );
    assert_eq!(
        RenameEngine::new(args("proj", "old", "a/b"), env()).unwrap_err(),
        "New string cannot contain path separators (/ or \\)"
    );
}

#[test]
fn progress_and_threads_follow_arguments_and_environment() {
    let quiet = Environment {
        root: RootStatus::Directory,
        available_parallelism: None,
        stdout_is_terminal: false,
    };
    let auto = RenameEngine::new(args("p", "a", "b"), quiet).unwrap();
    assert!(!auto.show_progress);
    assert_eq!(auto.thread_count, 4);
    assert_eq!(auto.max_depth, None);

    let mut always = args("p", "a", "b");
    always.progress = ProgressMode::Always;
    always.threads = 2;
    let always = RenameEngine::new(always, quiet).unwrap();
    assert!(always.show_progress);
    assert_eq!(always.thread_count, 2);
    assert!(always.rewrites_in_parallel());

    let mut json = args("p", "a", "b");
    json.progress = ProgressMode::Always;
    json.format = OutputFormat::Json;
    json.threads = 1;
    let json = RenameEngine::new(json, env()).unwrap();
    assert!(!json.show_progress);
    assert!(!json.rewrites_in_parallel());

    let mut never = args("p", "a", "b");
    never.progress = ProgressMode::Never;
    assert!(!engine(never).show_progress);
}

#[test]
fn a_small_tree_is_planned_as_expected() {
    let engine = engine(args("proj", "old_name", "new_name"));
    let tree = vec![
        scanned("proj", EntryKind::Directory, 0, None),
        scanned("proj/old_name.txt", EntryKind::File, 1, Some(b"hello old_name world")),
        scanned("proj/sub", EntryKind::Directory, 1, None),
        scanned("proj/sub/old_name", EntryKind::Directory, 2, None),
    ];
    let plan = engine.discover_items(&tree).unwrap();

    assert_eq!(plan.content_files, vec!["proj/old_name.txt".to_string()]);
    assert_eq!(plan.rename_items.len(), 2);
    assert_eq!(plan.rename_items[0].original_path, "proj/sub/old_name");
    assert_eq!(plan.rename_items[0].new_path, "proj/sub/new_name");
    assert_eq!(plan.rename_items[0].item_type, ItemType::Directory);
    assert_eq!(plan.rename_items[0].depth, 2);
    assert_eq!(plan.rename_items[1].original_path, "proj/old_name.txt");
    assert_eq!(plan.rename_items[1].new_path, "proj/new_name.txt");
    assert_eq!(plan.rename_items[1].item_type, ItemType::File);
    assert_eq!(plan.rename_items[1].depth, 1);

    let mut detector = CollisionDetector::new();
    for found in ["proj", "proj/old_name.txt", "proj/sub", "proj/sub/old_name"] {
        let kind = if found.ends_with(".txt") { ItemType::File } else { ItemType::Directory };
        detector.add_existing_path(found, kind);
    }
    detector.add_renames(&plan.rename_items);
    let collisions = detector.detect_collisions();
    assert_eq!(collisions.len(), 0);
    assert!(engine.check_collisions(&collisions).is_ok());

    let stats = RenameEngine::summarize(&plan.content_files, &plan.rename_items);
    assert_eq!(stats.files_with_content_changes, 1);
    assert_eq!(stats.files_renamed, 1);
    assert_eq!(stats.directories_renamed, 1);
    assert_eq!(stats.total_changes(), 3);
    assert!(stats.errors.is_empty());

    match engine.replace_content(b"hello old_name world") {
        ContentAction::Rewrite { content, backup } => {
            assert_eq!(content, "hello new_name world");
            assert!(!backup);
        },
        other => panic!("unexpected action: {:?}", other),
    }
}

#[test]
fn a_second_run_over_the_result_plans_nothing() {
    let engine = engine(args("proj", "old_name", "new_name"));
    let tree = vec![
        scanned("proj", EntryKind::Directory, 0, None),
        scanned("proj/new_name.txt", EntryKind::File, 1, Some(b"hello new_name world")),
        scanned("proj/sub", EntryKind::Directory, 1, None),
        scanned("proj/sub/new_name", EntryKind::Directory, 2, None),
    ];
    let plan = engine.discover_items(&tree).unwrap();
    assert!(plan.content_files.is_empty());
    assert!(plan.rename_items.is_empty());
    assert_eq!(RenameEngine::summarize(&plan.content_files, &plan.rename_items).total_changes(), 0);
}

#[test]
fn the_root_is_never_planned() {
    let engine = engine(args("old_root", "old", "new"));
    let tree = vec![scanned("old_root", EntryKind::Directory, 0, Some(b"old"))];
    let plan = engine.discover_items(&tree).unwrap();
    assert!(plan.content_files.is_empty());
    assert!(plan.rename_items.is_empty());
    assert!(engine.should_process_entry(&entry("old_root", EntryKind::Directory, 0)));
    assert!(!engine.should_read_content(&entry("old_root", EntryKind::File, 0)));
}

#[test]
fn binary_files_are_never_rewritten_but_may_be_renamed() {
    let engine = engine(args("proj", "old", "new"));
    assert!(engine.file_needs_content_replacement("a.txt", b"some old text"));
    assert!(!engine.file_needs_content_replacement("a.txt", b"some other text"));
    assert!(!engine.file_needs_content_replacement("a.txt", b"old\x00old"));
    assert!(!engine.file_needs_content_replacement("a.png", b"some old text"));
    // Bytes that are no valid UTF-8 are not searched.
    assert!(!engine.file_needs_content_replacement("a.txt", b"old \xFF\xFE\xFD"));
    // Text in UTF-16 holds NUL bytes, and is not searched either.
    assert!(!engine.file_needs_content_replacement("a.txt", b"\xFF\xFEo\x00l\x00d\x00"));
    assert!(!engine.file_needs_content_replacement("a.txt", b"\xFE\xFF\x00o\x00l\x00d old"));
    assert!(!engine.file_needs_content_replacement("a.txt", b"\x00\x00\xFE\xFF old"));
    let mut early = vec![b'a'; 1023];
    early.push(0);
    early.extend_from_slice(b" old ");
    assert!(!engine.file_needs_content_replacement("a.txt", &early));
    // A NUL byte anywhere in the first 8 KiB keeps a file from being rewritten.
    let mut late = vec![b'a'; 2000];
    late.push(0);
    late.extend_from_slice(b" old ");
    assert!(!engine.file_needs_content_replacement("a.txt", &late));
    let mut marked = vec![0xEF, 0xBB, 0xBF];
    marked.extend_from_slice(b"old \x00 old");
    assert!(!engine.file_needs_content_replacement("a.txt", &marked));
    let mut behind = vec![b'a'; 8192];
    behind.push(0);
    behind.extend_from_slice(b" old ");
    assert!(engine.file_needs_content_replacement("a.txt", &behind));

    let tree = vec![scanned("proj/old.png", EntryKind::File, 1, Some(b"old \x00"))];
    let plan = engine.discover_items(&tree).unwrap();
    assert!(plan.content_files.is_empty());
    assert_eq!(plan.rename_items.len(), 1);
    assert_eq!(plan.rename_items[0].new_path, "proj/new.png");
}

#[test]
fn content_is_replaced_everywhere_or_left_alone() {
    let mut a = args("proj", "old", "new");
    a.backup = true;
    let engine = engine(a);
    match engine.replace_content(b"old and old, bold") {
        ContentAction::Rewrite { content, backup } => {
            assert_eq!(content, "new and new, bnew");
            assert!(backup);
        },
        other => panic!("unexpected action: {:?}", other),
    }
    assert!(matches!(engine.replace_content(b"nothing here"), ContentAction::Unchanged));
    assert!(matches!(engine.replace_content(b""), ContentAction::Unchanged));
    assert!(matches!(engine.replace_content(b"old \xFF"), ContentAction::NotText));
    match engine.replace_content("日本old語".as_bytes()) {
        ContentAction::Rewrite { content, .. } => assert_eq!(content, "日本new語"),
        other => panic!("unexpected action: {:?}", other),
    }
}

#[test]
fn a_rename_stays_in_its_directory() {
    let engine = engine(args("old", "old", "new"));
    let made = engine.create_rename_item(&entry("old/old_dir/old.txt", EntryKind::File, 2));
    let made = made.unwrap().unwrap();
    assert_eq!(made.original_path, "old/old_dir/old.txt");
    assert_eq!(made.new_path, "old/old_dir/new.txt");
    assert_eq!(made.item_type, ItemType::File);
    assert_eq!(made.depth, 2);

    let unchanged = engine.create_rename_item(&entry("old/keep.txt", EntryKind::File, 1));
    assert!(unchanged.unwrap().is_none());

    let twice = engine.create_rename_item(&entry("p/old_old", EntryKind::Other, 1));
    let twice = twice.unwrap().unwrap();
    assert_eq!(twice.new_path, "p/new_new");
    assert_eq!(twice.item_type, ItemType::Directory);
}

#[test]
fn an_entry_without_a_usable_name_is_an_error() {
    let engine = engine(args("proj", "old", "new"));
    let nameless = WalkEntry {
        path: "proj/old".to_string(),
        file_name: None,
        kind: EntryKind::File,
        depth: 1,
    };
    assert_eq!(engine.create_rename_item(&nameless).unwrap_err(), "Invalid file name: proj/old");
    let astray = WalkEntry {
        path: "proj/old".to_string(),
        file_name: Some("other_old".to_string()),
        kind: EntryKind::File,
        depth: 1,
    };
    assert_eq!(engine.create_rename_item(&astray).unwrap_err(), "Invalid file name: proj/old");
    let tree = vec![
        scanned("proj/old_a", EntryKind::File, 1, None),
        ScannedEntry { entry: nameless, data: None },
    ];
    assert_eq!(engine.discover_items(&tree).unwrap_err(), "Invalid file name: proj/old");
}

#[test]
fn ignoring_case_replaces_the_match_and_leaves_the_rest_of_the_name() {
    let mut a = args("proj", "old", "new");
    a.ignore_case = true;
    let folding = engine(a);
    let made = folding.create_rename_item(&entry("proj/MyOLD_File.txt", EntryKind::File, 1));
    let made = made.unwrap().unwrap();
    assert_eq!(made.original_path, "proj/MyOLD_File.txt");
    assert_eq!(made.new_path, "proj/Mynew_File.txt");

    let made = folding.create_rename_item(&entry("proj/Old_OLD_oLd.TXT", EntryKind::File, 1));
    assert_eq!(made.unwrap().unwrap().new_path, "proj/new_new_new.TXT");
    let none = folding.create_rename_item(&entry("proj/Bold.TXT", EntryKind::File, 1));
    assert_eq!(none.unwrap().unwrap().new_path, "proj/Bnew.TXT");
    let none = folding.create_rename_item(&entry("proj/OLX.TXT", EntryKind::File, 1));
    assert!(none.unwrap().is_none());

    let mut a = args("proj", "Old", "new");
    a.ignore_case = true;
    let engine = engine(a);
    let made = engine.create_rename_item(&entry("proj/My_OLD_File.TXT", EntryKind::File, 1));
    assert_eq!(made.unwrap().unwrap().new_path, "proj/My_new_File.TXT");
    // Contents are searched for the old string in lower case.
    assert!(engine.file_needs_content_replacement("a.txt", b"an old thing"));
    assert!(!engine.file_needs_content_replacement("a.txt", b"an Old thing"));
}

#[test]
fn modes_limit_what_is_planned() {
    let tree = vec![
        scanned("p/old.txt", EntryKind::File, 1, Some(b"old")),
        scanned("p/old_dir", EntryKind::Directory, 1, None),
    ];

    let mut a = args("p", "old", "new");
    a.names_only = true;
    let plan = engine(a).discover_items(&tree).unwrap();
    assert!(plan.content_files.is_empty());
    assert_eq!(plan.rename_items.len(), 2);

    let mut a = args("p", "old", "new");
    a.content_only = true;
    let plan = engine(a).discover_items(&tree).unwrap();
    assert_eq!(plan.content_files, vec!["p/old.txt".to_string()]);
    assert!(plan.rename_items.is_empty());

    let mut a = args("p", "old", "new");
    a.files_only = true;
    let files_only = engine(a);
    let plan = files_only.discover_items(&tree).unwrap();
    assert_eq!(plan.content_files, vec!["p/old.txt".to_string()]);
    assert_eq!(plan.rename_items.len(), 1);
    assert_eq!(plan.rename_items[0].original_path, "p/old.txt");
    assert!(files_only.should_process_entry(&entry("p/a.txt", EntryKind::File, 1)));
    assert!(files_only.should_process_entry(&entry("p/dir", EntryKind::Directory, 1)));

    let mut a = args("p", "old", "new");
    a.dirs_only = true;
    let dirs_only = engine(a);
    let plan = dirs_only.discover_items(&tree).unwrap();
    assert!(plan.content_files.is_empty());
    assert_eq!(plan.rename_items.len(), 1);
    assert_eq!(plan.rename_items[0].original_path, "p/old_dir");
    assert!(dirs_only.should_process_entry(&entry("p/a.txt", EntryKind::File, 1)));
    assert!(dirs_only.should_process_entry(&entry("p/dir", EntryKind::Directory, 1)));
}

#[test]
fn filters_and_hidden_entries() {
    let plain = engine(args("p", "old", "new"));
    assert!(!plain.should_process_entry(&entry("p/.git", EntryKind::Directory, 1)));
    assert!(plain.should_process_entry(&entry("p/src", EntryKind::Directory, 1)));

    let mut a = args("p", "old", "new");
    a.include_patterns = vec![".*".to_string()];
    let dotted = engine(a);
    assert!(dotted.should_process_entry(&entry("p/.git", EntryKind::Directory, 1)));
    assert!(dotted.matches_patterns(&entry("p/.git", EntryKind::Directory, 1)));
    assert!(!dotted.matches_patterns(&entry("p/src", EntryKind::Directory, 1)));

    let mut a = args("p", "old", "new");
    a.include_patterns = vec!["*.rs".to_string()];
    a.exclude_patterns = vec!["generated".to_string()];
    let filtered = engine(a);
    assert!(filtered.matches_patterns(&entry("p/old.rs", EntryKind::File, 1)));
    assert!(!filtered.matches_patterns(&entry("p/old.py", EntryKind::File, 1)));
    assert!(!filtered.matches_patterns(&entry("p/old_generated.rs", EntryKind::File, 1)));
    assert!(filtered.should_read_content(&entry("p/old.rs", EntryKind::File, 1)));
    assert!(!filtered.should_read_content(&entry("p/old.py", EntryKind::File, 1)));
    assert!(!filtered.should_read_content(&entry("p/old.rs", EntryKind::Directory, 1)));
    assert!(filtered.path_matches_pattern("main.rs", "*.rs"));
    assert!(!filtered.path_matches_pattern("MAIN.RS", "*.rs"));

    let tree = vec![
        scanned("p/old.rs", EntryKind::File, 1, Some(b"old")),
        scanned("p/old.py", EntryKind::File, 1, Some(b"old")),
        scanned("p/old_generated.rs", EntryKind::File, 1, Some(b"old")),
    ];
    let plan = filtered.discover_items(&tree).unwrap();
    assert_eq!(plan.content_files, vec!["p/old.rs".to_string()]);
    assert_eq!(plan.rename_items.len(), 1);
    assert_eq!(plan.rename_items[0].new_path, "p/new.rs");
}

#[test]
fn what_lies_below_a_rejected_entry_is_left_out() {
    let plain = engine(args("p", "old", "new"));
    let tree = vec![
        scanned("p", EntryKind::Directory, 0, None),
        scanned("p/.git", EntryKind::Directory, 1, None),
        scanned("p/.git/old_config", EntryKind::File, 2, Some(b"old")),
        scanned("p/.git/.old_inner", EntryKind::Directory, 2, None),
        scanned("p/.git/.old_inner/old_a", EntryKind::File, 3, Some(b"old")),
        scanned("p/.git/old_hooks", EntryKind::Directory, 2, None),
        scanned("p/old_1.txt", EntryKind::File, 1, Some(b"old")),
        scanned("p/dir", EntryKind::Directory, 1, None),
        scanned("p/dir/.old_hidden", EntryKind::File, 2, Some(b"old")),
        scanned("p/dir/old_2.txt", EntryKind::File, 2, Some(b"old")),
    ];
    let plan = plain.discover_items(&tree).unwrap();
    assert_eq!(plan.content_files, vec!["p/old_1.txt".to_string(), "p/dir/old_2.txt".to_string()]);
    assert_eq!(plan.rename_items.len(), 2);
    assert_eq!(plan.rename_items[0].original_path, "p/old_1.txt");
    assert_eq!(plan.rename_items[1].original_path, "p/dir/old_2.txt");

    // A walk that has left those entries out already gives the same plan.
    let walked = vec![
        scanned("p", EntryKind::Directory, 0, None),
        scanned("p/old_1.txt", EntryKind::File, 1, Some(b"old")),
        scanned("p/dir", EntryKind::Directory, 1, None),
        scanned("p/dir/old_2.txt", EntryKind::File, 2, Some(b"old")),
    ];
    let same = plain.discover_items(&walked).unwrap();
    assert_eq!(same.content_files, plan.content_files);
    assert_eq!(same.rename_items.len(), 2);
}

#[test]
fn a_directory_that_the_filters_reject_is_not_entered() {
    let mut a = args("p", "old", "new");
    a.exclude_patterns = vec!["target".to_string()];
    let excluding = engine(a);
    let tree = vec![
        scanned("p/target", EntryKind::Directory, 1, None),
        scanned("p/target/old.rs", EntryKind::File, 2, Some(b"old")),
        scanned("p/src", EntryKind::Directory, 1, None),
        scanned("p/src/old.rs", EntryKind::File, 2, Some(b"old")),
    ];
    let plan = excluding.discover_items(&tree).unwrap();
    assert_eq!(plan.content_files, vec!["p/src/old.rs".to_string()]);
    assert!(!excluding.should_process_entry(&entry("p/target", EntryKind::Directory, 1)));
    assert!(excluding.should_process_entry(&entry("p/src", EntryKind::Directory, 1)));

    let mut a = args("p", "old", "new");
    a.include_patterns = vec!["*.rs".to_string()];
    let including = engine(a);
    let tree = vec![
        scanned("p/old.rs", EntryKind::File, 1, Some(b"old")),
        scanned("p/src", EntryKind::Directory, 1, None),
        scanned("p/src/old.rs", EntryKind::File, 2, Some(b"old")),
        scanned("p/lib.rs", EntryKind::Directory, 1, None),
        scanned("p/lib.rs/old.rs", EntryKind::File, 2, Some(b"old")),
    ];
    let plan = including.discover_items(&tree).unwrap();
    assert_eq!(
        plan.content_files,
        vec!["p/old.rs".to_string(), "p/lib.rs/old.rs".to_string()]
    );
    // An entry that is left out is not looked at, whatever its name.
    let nameless = WalkEntry {
        path: "p/src/old".to_string(),
        file_name: None,
        kind: EntryKind::File,
        depth: 2,
    };
    let tree = vec![
        scanned("p/src", EntryKind::Directory, 1, None),
        ScannedEntry { entry: nameless, data: None },
    ];
    assert!(including.discover_items(&tree).is_ok());
}

#[test]
fn the_walk_goes_no_deeper_than_it_is_told() {
    let mut a = args("p", "old", "new");
    a.max_depth = 1;
    let shallow = engine(a);
    let tree = vec![
        scanned("p", EntryKind::Directory, 0, None),
        scanned("p/old_dir", EntryKind::Directory, 1, None),
        scanned("p/old_dir/old.txt", EntryKind::File, 2, Some(b"old")),
        scanned("p/old.txt", EntryKind::File, 1, Some(b"old")),
    ];
    let plan = shallow.discover_items(&tree).unwrap();
    assert_eq!(plan.content_files, vec!["p/old.txt".to_string()]);
    assert_eq!(plan.rename_items.len(), 2);
    assert_eq!(plan.rename_items[0].original_path, "p/old_dir");
    assert_eq!(plan.rename_items[1].original_path, "p/old.txt");
    assert!(shallow.should_process_entry(&entry("p/a", EntryKind::File, 1)));
    assert!(!shallow.should_process_entry(&entry("p/a/b", EntryKind::File, 2)));

    let deep = engine(args("p", "old", "new"));
    assert_eq!(deep.discover_items(&tree).unwrap().content_files.len(), 2);
}

#[test]
fn a_directory_inside_a_renamed_directory_is_renamed_first() {
    let engine = engine(args("root", "A", "B"));
    let tree = vec![
        scanned("root", EntryKind::Directory, 0, None),
        scanned("root/A", EntryKind::Directory, 1, None),
        scanned("root/A/A", EntryKind::Directory, 2, None),
        scanned("root/A/A/A", EntryKind::Directory, 3, None),
    ];
    let plan = engine.discover_items(&tree).unwrap();
    assert_eq!(plan.rename_items.len(), 3);
    assert_eq!(plan.rename_items[0].original_path, "root/A/A/A");
    assert_eq!(plan.rename_items[0].new_path, "root/A/A/B");
    assert_eq!(plan.rename_items[0].depth, 3);
    assert_eq!(plan.rename_items[1].original_path, "root/A/A");
    assert_eq!(plan.rename_items[1].depth, 2);
    assert_eq!(plan.rename_items[2].original_path, "root/A");
    assert_eq!(plan.rename_items[2].depth, 1);

    // The depth comes from the path, whatever the walk said of it.
    let tree = vec![
        scanned("root/A", EntryKind::Directory, 7, None),
        scanned("root/A/A", EntryKind::Directory, 8, None),
    ];
    let plan = engine.discover_items(&tree).unwrap();
    assert_eq!(plan.rename_items[0].original_path, "root/A/A");
    assert_eq!(plan.rename_items[0].depth, 2);
    assert_eq!(plan.rename_items[1].depth, 1);
}

#[test]
fn regular_expressions_filter_names_where_asked() {
    let mut a = args("p", "old", "new");
    a.use_regex = true;
    a.include_patterns = vec![r"^\w+\.rs$".to_string()];
    let engine = engine(a);
    assert!(engine.matches_patterns(&entry("p/main.rs", EntryKind::File, 1)));
    assert!(!engine.matches_patterns(&entry("p/main.rs.bak", EntryKind::File, 1)));
    assert!(!engine.path_matches_pattern("main.rs", "("));
}

#[test]
fn content_that_was_not_read_is_not_rewritten() {
    let engine = engine(args("p", "old", "new"));
    let tree = vec![scanned("p/a.txt", EntryKind::File, 1, None)];
    let plan = engine.discover_items(&tree).unwrap();
    assert!(plan.content_files.is_empty());
    let plan = engine.classify_entry(&entry("p/a.txt", EntryKind::File, 1), Some(b"old")).unwrap();
    assert!(plan.content_change);
    assert!(plan.rename.is_none());
    let plan = engine.classify_entry(&entry("p/old", EntryKind::Directory, 1), Some(b"old")).unwrap();
    assert!(!plan.content_change);
    assert_eq!(plan.rename.unwrap().new_path, "p/new");
}

#[test]
fn only_blocking_conflicts_stop_a_run() {
    let engine = engine(args("p", "old", "new"));
    let noop = Collision {
        collision_type: CollisionType::SourceEqualsTarget,
        target_path: "p/a".to_string(),
        source_paths: vec!["p/a".to_string()],
        description: "Source and target are the same: p/a".to_string(),
    };
    let clash = |target: &str| Collision {
        collision_type: CollisionType::MultipleSourcesSameTarget,
        target_path: target.to_string(),
        source_paths: vec!["p/x".to_string(), "p/y".to_string()],
        description: String::new(),
    };
    assert!(engine.check_collisions(&[]).is_ok());
    assert!(engine.check_collisions(&[noop.clone()]).is_ok());
    assert_eq!(
        engine.check_collisions(&[clash("p/t"), noop.clone(), clash("p/u")]).unwrap_err(),
        "Cannot proceed due to 2 naming collision(s)"
    );
}

#[test]
fn no_ops_are_skipped_when_renaming() {
    let items = vec![
        item("p/a", "p/b", ItemType::Directory, 1),
        item("p/c", "p/c", ItemType::File, 1),
        item("p/d", "p/e", ItemType::File, 2),
    ];
    let pending = RenameEngine::pending_renames(&items);
    assert_eq!(pending.len(), 2);
    assert_eq!(pending[0].original_path, "p/a");
    assert_eq!(pending[0].new_path, "p/b");
    assert_eq!(pending[1].original_path, "p/d");
    assert_eq!(pending[1].depth, 2);
    assert!(items[1].is_noop());
    assert!(!items[0].is_noop());
}

#[test]
fn the_user_is_asked_unless_forced_dry_or_scripted() {
    assert!(engine(args("p", "a", "b")).needs_confirmation());
    let mut forced = args("p", "a", "b");
    forced.force = true;
    assert!(!engine(forced).needs_confirmation());
    let mut dry = args("p", "a", "b");
    dry.dry_run = true;
    assert!(!engine(dry).needs_confirmation());
    let mut json = args("p", "a", "b");
    json.format = OutputFormat::Json;
    assert!(!engine(json).needs_confirmation());
    let mut plain = args("p", "a", "b");
    plain.format = OutputFormat::Plain;
    assert!(engine(plain).needs_confirmation());
}
