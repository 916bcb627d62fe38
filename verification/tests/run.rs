use refac::cli::{Args, OutputFormat, ProgressMode, RootStatus};
use refac::model::{ItemType, RenameItem};
use refac::phase::{Action, Event, Outcome, Phase, RunState};
use refac::rename_engine::{Environment, RenameEngine};
use refac::rename_order::{sort_for_execution, stands_before};

fn engine_with(dry_run: bool, force: bool, threads: usize) -> RenameEngine {
    let args = Args {
        root_dir: "proj".to_string(),
        old_string: "old".to_string(),
        new_string: "new".to_string(),
        dry_run,
        force,
        verbose: false,
        follow_symlinks: false,
        backup: false,
        files_only: false,
        dirs_only: false,
        names_only: false,
        content_only: false,
        max_depth: 0,
        exclude_patterns: vec![],
        include_patterns: vec![],
        format: OutputFormat::Human,
        threads,
        progress: ProgressMode::Never,
        ignore_case: false,
        use_regex: false,
    };
    let env = Environment {
        root: RootStatus::Directory,
        available_parallelism: Some(4),
        stdout_is_terminal: false,
    };
    RenameEngine::new(args, env).unwrap()
}

fn item(path: &str, item_type: ItemType, depth: usize) -> RenameItem {
    RenameItem {
        original_path: path.to_string(),
        new_path: format!("{}_new", path),
        item_type,
        depth,
    }
}

fn paths(items: &[RenameItem]) -> Vec<&str> {
    items.iter().map(|item| item.original_path.as_str()).collect()
}

/// Drives a run with the given answers and returns every action asked for.
fn drive(engine: &RenameEngine, content: usize, renames: usize, blocking: usize, accepted: bool) -> (Vec<Action>, Phase) {
    let mut state = RunState::start();
    let mut actions = Vec::new();
    let mut event = Event::Discovered { content_changes: content, renames };
    loop {
        let (next, action) = engine.execute(state, event);
        state = next;
        actions.push(action);
        event = match action {
            Action::CheckCollisions => Event::CollisionsChecked { blocking },
            Action::Summarize { .. } => Event::Confirmed { accepted },
            Action::RewriteContent { .. } => Event::ContentDone,
            Action::RenameItems { .. } => Event::RenamesDone,
            Action::Report { .. } => Event::Reported,
            Action::Stop => break,
        };
    }
    (actions, state.phase)
}

#[test]
fn directories_come_first_deepest_first_then_files_shallowest_first() {
    let items = vec![
        item("f2", ItemType::File, 2),
        item("d1", ItemType::Directory, 1),
        item("f1", ItemType::File, 1),
        item("d3", ItemType::Directory, 3),
        item("d2", ItemType::Directory, 2),
        item("f3", ItemType::File, 3),
    ];
    let sorted = sort_for_execution(items);
    assert_eq!(paths(&sorted), vec!["d3", "d2", "d1", "f1", "f2", "f3"]);
    assert_eq!(sorted[0].new_path, "d3_new");
    assert_eq!(sorted[0].depth, 3);
}

#[test]
fn items_of_equal_standing_keep_their_order() {
    let items = vec![
        item("fa", ItemType::File, 1),
        item("da", ItemType::Directory, 2),
        item("fb", ItemType::File, 1),
        item("db", ItemType::Directory, 2),
        item("fc", ItemType::File, 1),
    ];
    let sorted = sort_for_execution(items);
    assert_eq!(paths(&sorted), vec!["da", "db", "fa", "fb", "fc"]);
    assert!(sort_for_execution(vec![]).is_empty());
}

#[test]
fn a_nested_match_is_renamed_before_the_outer_one() {
    let items = vec![
        item("root/A", ItemType::Directory, 1),
        item("root/A/A", ItemType::Directory, 2),
    ];
    let sorted = sort_for_execution(items);
    assert_eq!(paths(&sorted), vec!["root/A/A", "root/A"]);
}

#[test]
fn standing_compares_kind_and_depth() {
    let shallow_dir = item("a", ItemType::Directory, 1);
    let deep_dir = item("b", ItemType::Directory, 5);
    let shallow_file = item("c", ItemType::File, 1);
    let deep_file = item("d", ItemType::File, 5);
    assert!(stands_before(&deep_dir, &shallow_dir));
    assert!(!stands_before(&shallow_dir, &deep_dir));
    assert!(stands_before(&shallow_dir, &shallow_file));
    assert!(!stands_before(&shallow_file, &deep_dir));
    assert!(stands_before(&shallow_file, &deep_file));
    assert!(!stands_before(&deep_file, &shallow_file));
    assert!(stands_before(&deep_file, &deep_file));
}

#[test]
fn a_full_run_goes_through_every_phase() {
    let engine = engine_with(false, false, 4);
    let (actions, end) = drive(&engine, 1, 2, 0, true);
    assert_eq!(
        actions,
        vec![
            Action::CheckCollisions,
            Action::Summarize { ask: true },
            Action::RewriteContent { mutate: true, parallel: true },
            Action::RenameItems { mutate: true },
            Action::Report { outcome: Outcome::Applied },
            Action::Stop,
        ]
    );
    assert_eq!(end, Phase::Completed);
}

#[test]
fn a_dry_run_never_asks_for_a_change() {
    let engine = engine_with(true, false, 1);
    let (actions, end) = drive(&engine, 3, 3, 0, false);
    assert_eq!(
        actions,
        vec![
            Action::CheckCollisions,
            Action::Summarize { ask: false },
            Action::RewriteContent { mutate: false, parallel: false },
            Action::RenameItems { mutate: false },
            Action::Report { outcome: Outcome::DryRun },
            Action::Stop,
        ]
    );
    assert!(actions.iter().all(|action| !action.changes_files()));
    assert_eq!(end, Phase::Completed);
}

#[test]
fn a_blocking_conflict_aborts_before_any_change() {
    let engine = engine_with(false, true, 4);
    let (actions, end) = drive(&engine, 1, 2, 1, true);
    assert_eq!(actions, vec![Action::CheckCollisions, Action::Stop]);
    assert_eq!(end, Phase::Aborted);
}

#[test]
fn an_empty_plan_goes_straight_to_the_report() {
    let engine = engine_with(false, false, 4);
    let (actions, end) = drive(&engine, 0, 0, 0, true);
    assert_eq!(
        actions,
        vec![
            Action::CheckCollisions,
            Action::Summarize { ask: false },
            Action::Report { outcome: Outcome::NoChanges },
            Action::Stop,
        ]
    );
    assert_eq!(end, Phase::Completed);
    // Whatever is answered, nothing is done.
    let (actions, end) = drive(&engine, 0, 0, 0, false);
    assert_eq!(actions[2], Action::Report { outcome: Outcome::NoChanges });
    assert_eq!(end, Phase::Completed);
}

#[test]
fn a_refusal_aborts_unless_nobody_was_asked() {
    let asking = engine_with(false, false, 4);
    let (actions, end) = drive(&asking, 1, 0, 0, false);
    assert_eq!(
        actions,
        vec![Action::CheckCollisions, Action::Summarize { ask: true }, Action::Stop]
    );
    assert_eq!(end, Phase::Aborted);

    let forced = engine_with(false, true, 4);
    let (actions, end) = drive(&forced, 1, 0, 0, false);
    assert_eq!(actions[1], Action::Summarize { ask: false });
    assert_eq!(actions[2], Action::RewriteContent { mutate: true, parallel: true });
    assert_eq!(actions[3], Action::RenameItems { mutate: false });
    assert_eq!(end, Phase::Completed);
}

#[test]
fn an_event_out_of_place_fails_the_run_and_a_finished_run_stays() {
    let engine = engine_with(false, false, 4);
    let start = RunState::start();
    assert_eq!(start, RunState { phase: Phase::Discover, content_changes: 0, renames: 0 });
    assert!(!start.is_finished());

    let (failed, action) = engine.execute(start, Event::ContentDone);
    assert_eq!(failed.phase, Phase::Failed);
    assert_eq!(action, Action::Stop);
    assert!(failed.is_finished());

    let (failed, action) = engine.execute(start, Event::DiscoveryFailed);
    assert_eq!(failed.phase, Phase::Failed);
    assert_eq!(action, Action::Stop);

    let (still, action) = engine.execute(failed, Event::Discovered { content_changes: 1, renames: 1 });
    assert_eq!(still, failed);
    assert_eq!(action, Action::Stop);

    let done = RunState { phase: Phase::Completed, content_changes: 2, renames: 1 };
    assert_eq!(engine.execute(done, Event::Reported), (done, Action::Stop));
    let aborted = RunState { phase: Phase::Aborted, content_changes: 2, renames: 1 };
    assert!(aborted.is_finished());
    assert_eq!(engine.execute(aborted, Event::Confirmed { accepted: true }), (aborted, Action::Stop));
}

#[test]
fn what_was_found_is_carried_through_the_run() {
    let engine = engine_with(false, true, 1);
    let (state, _) = engine.execute(
        RunState::start(),
        Event::Discovered { content_changes: 5, renames: 7 },
    );
    assert_eq!(state, RunState { phase: Phase::DetectCollisions, content_changes: 5, renames: 7 });
    let (state, _) = engine.execute(state, Event::CollisionsChecked { blocking: 0 });
    assert_eq!(state, RunState { phase: Phase::Confirm, content_changes: 5, renames: 7 });
    let (state, action) = engine.execute(state, Event::Confirmed { accepted: true });
    assert_eq!(state.phase, Phase::ExecuteContent);
    assert_eq!(action, Action::RewriteContent { mutate: true, parallel: false });
    assert!(action.changes_files());
}
