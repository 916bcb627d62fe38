use refac::fields::{is_whitespace, parse_u32, trim, trim_end, words_of};
use refac::rename_engine::RenameEngine;
use refac::scrap::{
    check_destination, decide_search, gitignore_entry, goes_into_archive, parse_sort_key,
    restore_target, search_entry, CustomTarget, Moment, RestoreTarget, ScrapEntry,
    ScrapMetadata, SearchHit, SortKey,
};
use refac::verbump::{
    commit_range, count_changes, install_block, parse_commit_count, uninstall_block,
    HookRemoval, VersionInfo,
};

const BLOCK: &str = "#!/bin/bash\n# === VERBUMP BLOCK START ===\n# DO NOT EDIT THIS BLOCK MANUALLY\n# Use 'verbump uninstall' to remove this hook\n/usr/bin/verbump update --force\n# === VERBUMP BLOCK END ===\n";

#[test]
fn whitespace_is_what_unicode_lists() {
    for c in [' ', '\t', '\n', '\r', '\u{0B}', '\u{0C}', '\u{85}', '\u{A0}', '\u{3000}', '\u{2003}'] {
        assert!(is_whitespace(c));
        assert!(c.is_whitespace());
    }
    for c in ['a', '0', '_', '\u{200B}', '\u{1F}', '\u{0}'] {
        assert!(!is_whitespace(c));
        assert!(!c.is_whitespace());
    }
}

#[test]
fn trimming_takes_whitespace_off_the_ends_only() {
    assert_eq!(trim("  a b \t\n"), "a b");
    assert_eq!(trim("a"), "a");
    assert_eq!(trim(" \n "), "");
    assert_eq!(trim(""), "");
    assert_eq!(trim_end("  a b \t\n"), "  a b");
    assert_eq!(trim_end("\n"), "");
    assert_eq!(trim("\u{3000}x\u{A0}"), "x");
}

#[test]
fn words_are_the_stretches_without_whitespace() {
    assert_eq!(words_of("12\t7\tsrc/main.rs"), vec!["12", "7", "src/main.rs"]);
    assert_eq!(words_of("  a   b  "), vec!["a", "b"]);
    assert_eq!(words_of("one"), vec!["one"]);
    assert_eq!(words_of(" \t "), Vec::<String>::new());
    assert_eq!(words_of(""), Vec::<String>::new());
}

#[test]
fn numbers_are_digits_with_an_optional_plus() {
    assert_eq!(parse_u32("0"), Some(0));
    assert_eq!(parse_u32("42"), Some(42));
    assert_eq!(parse_u32("+42"), Some(42));
    assert_eq!(parse_u32("007"), Some(7));
    assert_eq!(parse_u32("4294967295"), Some(4294967295));
    assert_eq!(parse_u32("4294967296"), None);
    assert_eq!(parse_u32("00000000004294967295"), Some(4294967295));
    assert_eq!(parse_u32("99999999999999999999999999"), None);
    assert_eq!(parse_u32(""), None);
    assert_eq!(parse_u32("+"), None);
    assert_eq!(parse_u32("-1"), None);
    assert_eq!(parse_u32("++1"), None);
    assert_eq!(parse_u32("1 "), None);
    assert_eq!(parse_u32("1a"), None);
    assert_eq!(parse_u32("-"), None);
    for text in ["0", "+42", "007", "4294967296", "", "+", "-1", "1a", "١٢"] {
        assert_eq!(parse_u32(text), text.parse::<u32>().ok());
    }
}

#[test]
fn changes_are_additions_plus_deletions_over_all_lines() {
    assert_eq!(count_changes(""), 0);
    assert_eq!(count_changes("3\t4\ta.rs\n"), 7);
    assert_eq!(count_changes("3\t4\ta.rs\n\n10\t0\tb.rs\r\n-\t-\timage.png\n1\t1\tc.rs"), 19);
    // A line with one number, or with a word that is no number, counts nothing.
    assert_eq!(count_changes("5\n5 x\nx 5\n"), 0);
    // The sum stops at the largest value.
    assert_eq!(count_changes("4294967295\t0\ta\n1\t1\tb\n"), 4294967295);
    assert_eq!(count_changes("4294967290 3 a\n1 1 b\n"), 4294967295);
    assert_eq!(count_changes("4294967296 1 a\n"), 0);
}

#[test]
fn a_commit_count_is_read_from_what_the_command_printed() {
    assert_eq!(parse_commit_count("17\n"), Some(17));
    assert_eq!(parse_commit_count("  0 "), Some(0));
    assert_eq!(parse_commit_count(""), None);
    assert_eq!(parse_commit_count("fatal: bad revision\n"), None);
    assert_eq!(parse_commit_count("1 2\n"), None);
}

#[test]
fn the_block_is_put_in_beside_what_the_hook_held() {
    assert_eq!(install_block(None, "/usr/bin/verbump"), BLOCK);
    assert_eq!(install_block(Some(""), "/usr/bin/verbump"), BLOCK);
    assert_eq!(install_block(Some(" \n\n"), "/usr/bin/verbump"), BLOCK);
    assert_eq!(install_block(Some(BLOCK), "/usr/bin/verbump"), format!("#!/bin/bash\n{}", BLOCK));
    let existing = "#!/bin/bash\necho \"Existing hook\"\n";
    let installed = install_block(Some(existing), "/usr/bin/verbump");
    assert_eq!(installed, format!("#!/bin/bash\necho \"Existing hook\"\n{}", BLOCK));
    assert!(installed.contains("Existing hook"));
    assert!(installed.contains("=== VERBUMP BLOCK START ==="));
    let spaced = install_block(Some("echo hi\n\n  \n"), "v");
    assert!(spaced.starts_with("echo hi\n#!/bin/bash\n# === VERBUMP BLOCK START ===\n"));
    assert!(spaced.contains("\nv update --force\n"));
}

#[test]
fn the_block_is_taken_out_and_an_empty_hook_goes() {
    assert!(matches!(uninstall_block("#!/bin/bash\necho hi\n"), HookRemoval::NotInstalled));
    assert!(matches!(uninstall_block(""), HookRemoval::NotInstalled));
    assert!(matches!(uninstall_block(BLOCK), HookRemoval::RemoveFile));
    let only_shell = format!("\n{}\n", BLOCK);
    assert!(matches!(uninstall_block(&only_shell), HookRemoval::RemoveFile));
    let installed = install_block(Some("#!/bin/bash\necho \"Other hook content\"\n"), "v");
    match uninstall_block(&installed) {
        HookRemoval::Rewrite(content) => {
            assert_eq!(content, "#!/bin/bash\necho \"Other hook content\"\n#!/bin/bash\n");
            assert!(content.contains("Other hook content"));
            assert!(!content.contains("VERBUMP BLOCK"));
        },
        other => panic!("unexpected removal: {:?}", other),
    }
}

#[test]
fn the_scrap_folder_is_added_to_an_ignore_file_once() {
    assert_eq!(gitignore_entry("*.log\ntarget/\n"), Some(".scrap/\n".to_string()));
    assert_eq!(gitignore_entry("*.log\ntarget/"), Some("\n.scrap/\n".to_string()));
    assert_eq!(gitignore_entry(""), Some(".scrap/\n".to_string()));
    assert_eq!(gitignore_entry("*.log\n.scrap/\ntarget/\n"), None);
    assert_eq!(gitignore_entry(".scrap"), None);
    assert_eq!(gitignore_entry("a\n  .scrap/  \r\nb"), None);
    assert_eq!(gitignore_entry(".scrap/sub\n"), Some(".scrap/\n".to_string()));
    assert_eq!(gitignore_entry("# .scrap/\n"), Some(".scrap/\n".to_string()));
}

#[test]
fn sort_keys_are_name_date_and_size() {
    assert_eq!(parse_sort_key("name"), Ok(SortKey::Name));
    assert_eq!(parse_sort_key("date"), Ok(SortKey::Date));
    assert_eq!(parse_sort_key("size"), Ok(SortKey::Size));
    assert_eq!(parse_sort_key("Date"), Err("Invalid sort option: Date".to_string()));
    assert_eq!(parse_sort_key(""), Err("Invalid sort option: ".to_string()));
}

#[test]
fn moments_are_compared_to_the_nanosecond() {
    let day: i64 = 86_400;
    let now = Moment { seconds: 100 * day, nanos: 5 };
    assert!(Moment { seconds: 69 * day, nanos: 0 }.is_older_than(&now, 30));
    assert!(Moment { seconds: 70 * day, nanos: 4 }.is_older_than(&now, 30));
    assert!(!Moment { seconds: 70 * day, nanos: 5 }.is_older_than(&now, 30));
    assert!(!Moment { seconds: 71 * day, nanos: 0 }.is_older_than(&now, 30));
    assert!(!now.is_older_than(&now, 0));
    assert!(!Moment { seconds: i64::MIN, nanos: 0 }.is_older_than(&now, u64::MAX));
    assert!(Moment { seconds: 1, nanos: 999_999_999 }.is_before(&Moment { seconds: 2, nanos: 0 }));
    assert!(!Moment { seconds: 2, nanos: 0 }.is_before(&Moment { seconds: 2, nanos: 0 }));
    assert!(Moment { seconds: -1, nanos: 0 }.is_before(&Moment { seconds: 0, nanos: 0 }));
}

#[test]
fn a_record_keeps_one_entry_for_a_name() {
    let at = |seconds: i64| Moment { seconds, nanos: 0 };
    let mut record = ScrapMetadata::new();
    assert_eq!(record.version(), 1);
    assert!(record.is_empty());
    assert_eq!(record.len(), 0);
    assert!(record.get_entry("a.txt").is_none());
    assert!(record.latest().is_none());
    assert!(record.remove_entry("a.txt").is_none());

    record.add_entry("a.txt", "/home/a.txt".to_string(), at(10));
    record.add_entry("b.txt", "/home/b.txt".to_string(), at(30));
    record.add_entry("c.txt", "/home/c.txt".to_string(), at(20));
    assert_eq!(record.len(), 3);
    assert!(!record.is_empty());

    let found = record.get_entry("b.txt").unwrap();
    assert_eq!(found.original_path, "/home/b.txt");
    assert_eq!(found.scrapped_name, "b.txt");
    assert_eq!(found.scrapped_at, at(30));
    assert!(record.get_entry("B.txt").is_none());
    assert_eq!(record.latest().unwrap().scrapped_name, "b.txt");

    // The same name again: the entry gives way, the count stays.
    record.add_entry("a.txt", "/elsewhere/a.txt".to_string(), at(40));
    assert_eq!(record.len(), 3);
    assert_eq!(record.get_entry("a.txt").unwrap().original_path, "/elsewhere/a.txt");
    assert_eq!(record.latest().unwrap().scrapped_name, "a.txt");

    let mut names = record.names();
    names.sort();
    assert_eq!(names, vec!["a.txt", "b.txt", "c.txt"]);

    let removed = record.remove_entry("a.txt").unwrap();
    assert_eq!(removed.original_path, "/elsewhere/a.txt");
    assert_eq!(removed.scrapped_at, at(40));
    assert_eq!(record.len(), 2);
    assert!(record.get_entry("a.txt").is_none());
    assert!(record.remove_entry("a.txt").is_none());
    assert_eq!(record.latest().unwrap().scrapped_name, "b.txt");
    assert_eq!(record.get_entry("c.txt").unwrap().original_path, "/home/c.txt");

    record.remove_entry("b.txt");
    record.remove_entry("c.txt");
    assert!(record.is_empty());
}

#[test]
fn a_record_takes_entries_under_any_name_and_keeps_its_version() {
    let mut record = ScrapMetadata::new();
    record.set_version(7);
    let entry = ScrapEntry {
        original_path: "/home/x".to_string(),
        scrapped_at: Moment { seconds: 5, nanos: 1 },
        scrapped_name: "x_1".to_string(),
    };
    record.insert("x".to_string(), entry.clone());
    record.insert("y".to_string(), entry);
    assert_eq!(record.version(), 7);
    assert_eq!(record.len(), 2);
    assert_eq!(record.get_entry("x").unwrap().scrapped_name, "x_1");
    assert!(record.get_entry("x_1").is_none());
    let latest = record.latest().unwrap();
    assert_eq!(latest.scrapped_at, Moment { seconds: 5, nanos: 1 });
}

#[test]
fn a_restored_item_goes_where_it_is_told_or_where_it_came_from() {
    let custom = |path: &str, is_dir: bool| Some(CustomTarget { path: path.to_string(), is_dir });
    assert!(matches!(
        restore_target(custom("out", true), Some("/home/a.txt".to_string())),
        RestoreTarget::Into(path) if path == "out"
    ));
    assert!(matches!(
        restore_target(custom("out/b.txt", false), Some("/home/a.txt".to_string())),
        RestoreTarget::To(path) if path == "out/b.txt"
    ));
    assert!(matches!(
        restore_target(None, Some("/home/a.txt".to_string())),
        RestoreTarget::To(path) if path == "/home/a.txt"
    ));
    assert!(matches!(restore_target(None, None), RestoreTarget::CurrentDirectory));

    assert_eq!(check_destination("a.txt", false, false), Ok(()));
    assert_eq!(check_destination("a.txt", true, true), Ok(()));
    assert_eq!(
        check_destination("a.txt", true, false),
        Err("Destination 'a.txt' already exists. Use --force to overwrite.".to_string())
    );
}

#[test]
fn a_search_tries_the_name_and_then_the_content() {
    assert_eq!(search_entry(r"^notes\.", "notes.txt", None), Ok(Some(SearchHit::FileName)));
    assert_eq!(search_entry("todo", "notes.txt", None), Ok(None));
    assert_eq!(search_entry("todo", "notes.txt", Some("a todo list")), Ok(Some(SearchHit::Content)));
    assert_eq!(search_entry("todo", "notes.txt", Some("nothing")), Ok(None));
    assert_eq!(search_entry("notes", "notes.txt", Some("notes")), Ok(Some(SearchHit::FileName)));
    assert_eq!(search_entry("meta", ".metadata.json", Some("meta")), Ok(None));
    assert_eq!(
        search_entry("(", "notes.txt", None),
        Err("Invalid regex pattern: (".to_string())
    );
    assert_eq!(
        search_entry("(", ".hidden", None),
        Err("Invalid regex pattern: (".to_string())
    );
    assert_eq!(decide_search("p", false, Some(false), Some(Some(true))), Ok(Some(SearchHit::Content)));
    assert_eq!(decide_search("p", false, Some(false), Some(None)), Ok(None));
    assert_eq!(decide_search("p", true, Some(true), None), Ok(None));
    assert_eq!(decide_search("p", false, None, None), Err("Invalid regex pattern: p".to_string()));
}

#[test]
fn test_update_gitignore_add_entry() {
    let before = "*.log\ntarget/\n";
    let addition = gitignore_entry(before).unwrap();
    let contents = format!("{}{}", before, addition);
    assert!(contents.contains(".scrap/"));
    assert_eq!(contents, "*.log\ntarget/\n.scrap/\n");
    // Once it is there, nothing more is added.
    assert_eq!(gitignore_entry(&contents), None);
}

#[test]
fn test_restore_item_custom_destination() {
    let custom = CustomTarget { path: "/tmp/work/custom".to_string(), is_dir: true };
    let target = restore_target(Some(custom), Some("/tmp/work/original/test.txt".to_string()));
    assert!(matches!(target, RestoreTarget::Into(path) if path == "/tmp/work/custom"));
}

#[test]
fn test_restore_with_force() {
    // Without force should fail
    let result = check_destination("/tmp/work/test.txt", true, false);
    assert!(result.is_err());

    // With force should succeed
    check_destination("/tmp/work/test.txt", true, true).unwrap();
}

#[test]
fn test_undo_last_scrap() {
    let now: i64 = 1_700_000_000;
    let mut metadata = ScrapMetadata::new();

    // Add first file (older)
    let entry1 = ScrapEntry {
        original_path: "/tmp/work/old.txt".to_string(),
        scrapped_at: Moment { seconds: now - 3600, nanos: 0 },
        scrapped_name: "old.txt".to_string(),
    };
    metadata.insert("old.txt".to_string(), entry1);

    // Add second file (newer)
    let entry2 = ScrapEntry {
        original_path: "/tmp/work/new.txt".to_string(),
        scrapped_at: Moment { seconds: now, nanos: 0 },
        scrapped_name: "new.txt".to_string(),
    };
    metadata.insert("new.txt".to_string(), entry2);

    // Undo should restore the newer file
    let latest = metadata.latest().unwrap();
    assert_eq!(latest.scrapped_name, "new.txt");
    assert_eq!(latest.original_path, "/tmp/work/new.txt");
    let name = latest.scrapped_name.clone();
    metadata.remove_entry(&name);

    // Check older file still in scrap
    assert!(metadata.get_entry("old.txt").is_some());
    assert!(metadata.get_entry("new.txt").is_none());
}

#[test]
fn small_rules_of_naming() {
    assert_eq!(RenameEngine::backup_path("dir/file.txt"), "dir/file.txt.bak");
    assert_eq!(RenameEngine::backup_path(""), ".bak");

    assert!(goes_into_archive("notes.txt"));
    assert!(goes_into_archive(".metadata.json"));
    assert!(!goes_into_archive(".hidden"));
    assert!(!goes_into_archive(".metadata.json.bak"));

    assert_eq!(commit_range("v0"), "HEAD");
    assert_eq!(commit_range("v1.2"), "v1.2..HEAD");
    assert_eq!(commit_range(""), "..HEAD");

    let info = VersionInfo::calculate("v1.0".to_string(), 5, 100);
    assert_eq!(info.file_content(), "1.0.5.100\n");
}
