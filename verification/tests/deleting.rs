use pc_cleaner::audit::{
    audit_file_path, backup_file_path, filter_by_run, log_lines, next_run_id, record_outcome,
    records_from_outcome, rotate_if_needed, AuditStep, MAX_LOG_BYTES,
};
use pc_cleaner::breakdown::{by_rule, from_plan, from_selected_entries};
use pc_cleaner::delete::{
    container_result, deletion_step, execute, execute_with_progress, plan_entry, preview,
    removal_of, DeletionStep, Execution, Removal,
};
use pc_cleaner::history::{
    entry_from_outcome, history_file_path, push, record_step, History, HistoryStep,
};
use pc_cleaner::path::{FilePath, PathPart};
use pc_cleaner::platform::{
    ElevateError, ElevateResult, KnownDir, Platform, PlatformError, RestoreItemOutcome, TrashEntry,
};
use pc_cleaner::{
    AuditRecord, Config, DeleteAction, DeleteMethod, DeleteMode, DeletePlan, DeleteProgress,
    DeleteRequest, DryRunReason, ExclusionReason, ItemOutcome, MatchKind, Rule, Safety, ScanEntry,
};
use std::collections::{HashMap, HashSet};

fn path(text: &str) -> FilePath {
    let mut parts = Vec::new();
    if text.starts_with('/') {
        parts.push(PathPart::RootDir);
    }
    for name in text.split('/') {
        if name == ".." {
            parts.push(PathPart::ParentDir);
        } else if !name.is_empty() {
            parts.push(PathPart::Normal(name.to_string()));
        }
    }
    FilePath { text: text.to_string(), parts }
}

struct FakePlatform {
    dirs: HashMap<KnownDir, FilePath>,
    admin_paths: HashSet<String>,
    config_dir: Option<FilePath>,
    elevated: bool,
}

impl FakePlatform {
    fn new() -> Self {
        FakePlatform {
            dirs: HashMap::new(),
            admin_paths: HashSet::new(),
            config_dir: None,
            elevated: false,
        }
    }

    fn with_dir(mut self, kind: KnownDir, at: &str) -> Self {
        self.dirs.insert(kind, path(at));
        self
    }

    fn admin_path(mut self, at: &str) -> Self {
        self.admin_paths.insert(at.to_string());
        self
    }

    fn with_config_dir(mut self, at: &str) -> Self {
        self.config_dir = Some(path(at));
        self
    }

    fn elevated(mut self) -> Self {
        self.elevated = true;
        self
    }
}

impl Platform for FakePlatform {
    fn known_dir(&self, kind: KnownDir) -> Option<FilePath> {
        self.dirs.get(&kind).cloned()
    }
    fn to_trash(&self, _path: &FilePath) -> Result<(), PlatformError> {
        Err(PlatformError::Unsupported("to_trash"))
    }
    fn requires_admin(&self, path: &FilePath) -> bool {
        self.admin_paths.contains(&path.text)
    }
    fn config_dir(&self) -> Option<FilePath> {
        self.config_dir.clone()
    }
    fn is_elevated(&self) -> bool {
        self.elevated
    }
    fn elevate(&self, _args: &[String]) -> ElevateResult {
        Err(ElevateError::Unsupported)
    }
    fn is_file_in_use(&self, _path: &FilePath) -> Option<bool> {
        None
    }
    fn list_trash(&self) -> Result<Vec<TrashEntry>, PlatformError> {
        Err(PlatformError::Unsupported("list_trash"))
    }
    fn restore_from_trash(&self, _ids: &[String]) -> Vec<(String, RestoreItemOutcome)> {
        Vec::new()
    }
}

fn scan_entry(rule_id: &str, at: &str, size: u64, selected: bool) -> ScanEntry {
    ScanEntry {
        rule_id: rule_id.to_string(),
        path: path(at),
        size,
        file_count: 1,
        modified: None,
        age_days: None,
        in_use: None,
        duplicate: None,
        recommended: selected,
        reason: String::new(),
        selected,
    }
}

fn test_rule(id: &str, base: KnownDir, needs_admin: bool) -> Rule {
    Rule {
        id: id.to_string(),
        label: id.to_string(),
        description: "test".to_string(),
        base,
        match_kind: MatchKind::All,
        needs_admin,
        safety: Safety::Safe,
        age_threshold_days: None,
        large_file_threshold_bytes: None,
        is_user_defined: false,
    }
}

fn config_with(use_trash: bool, dry_run_default: bool) -> Config {
    Config { use_trash, dry_run_default, ..Config::default() }
}

// ---- How to delete ----

#[test]
fn resolve_mode_decision_table() {
    let mode = DeleteMode::resolve(&config_with(true, true), DeleteRequest::from_config());
    assert!(mode.is_dry_run());
    assert_eq!(mode.dry_run_reason(), Some(DryRunReason::ConfigDefault));
    assert_eq!(mode.method(), DeleteMethod::Trash);

    let mode = DeleteMode::resolve(&config_with(true, false), DeleteRequest::from_config());
    assert!(!mode.is_dry_run());
    assert_eq!(mode.method(), DeleteMethod::Trash);

    let mode = DeleteMode::resolve(&config_with(false, false), DeleteRequest::from_config());
    assert!(mode.is_dry_run());
    assert_eq!(mode.dry_run_reason(), Some(DryRunReason::TrashDisabled));

    let mode = DeleteMode::resolve(&config_with(true, false), DeleteRequest::dry_run());
    assert_eq!(mode.dry_run_reason(), Some(DryRunReason::ExplicitRequest));

    let mode = DeleteMode::resolve(&config_with(true, false), DeleteRequest::execute());
    assert!(!mode.is_dry_run());

    let mode = DeleteMode::resolve(&config_with(false, false), DeleteRequest::execute());
    assert!(mode.is_dry_run());
    assert_eq!(mode.dry_run_reason(), Some(DryRunReason::TrashDisabled));

    let mode =
        DeleteMode::resolve(&config_with(false, true), DeleteRequest::permanent_confirmed());
    assert!(!mode.is_dry_run());
    assert_eq!(mode.method(), DeleteMethod::Permanent);

    let mode =
        DeleteMode::resolve(&config_with(false, true), DeleteRequest::permanent_unconfirmed());
    assert!(mode.is_dry_run());
    assert_eq!(mode.dry_run_reason(), Some(DryRunReason::PermanentNotConfirmed));
    assert_eq!(mode.method(), DeleteMethod::Permanent);
}

// ---- What to delete ----

#[test]
fn dry_run_deletes_nothing() {
    let platform = FakePlatform::new().with_dir(KnownDir::UserTemp, "/base");
    let rules = vec![test_rule("user_temp", KnownDir::UserTemp, false)];
    let entries = vec![scan_entry("user_temp", "/base/a.txt", 1, true)];

    let mode = DeleteMode::resolve(&Config::default(), DeleteRequest::dry_run());
    let plan = preview(&platform, &entries, &rules, mode);
    assert_eq!(plan.item_count(), 1);

    let outcome = execute(plan, &vec![ItemOutcome::Deleted]);
    assert!(outcome.is_dry_run());
    assert_eq!(outcome.deleted_count(), 0);
    assert!(outcome.results.iter().all(|r| r.outcome == ItemOutcome::NotAttempted));
}

#[test]
fn trash_mode_moves_only_selected_entries() {
    let platform = FakePlatform::new().with_dir(KnownDir::UserTemp, "/base");
    let rules = vec![test_rule("user_temp", KnownDir::UserTemp, false)];
    let entries = vec![
        scan_entry("user_temp", "/base/keep.txt", 4, false),
        scan_entry("user_temp", "/base/gone.txt", 4, true),
    ];

    let mode = DeleteMode::resolve(&config_with(true, false), DeleteRequest::execute());
    let plan = preview(&platform, &entries, &rules, mode);
    assert_eq!(plan.item_count(), 1);
    assert_eq!(plan.total_size(), 4);
    assert_eq!(plan.excluded().len(), 1);
    assert_eq!(plan.excluded()[0].reason, ExclusionReason::NotSelected);
    assert_eq!(plan.items()[0].path, path("/base/gone.txt"));
    assert_eq!(plan.items()[0].action, DeleteAction::ToTrash);

    let outcome = execute(plan, &vec![ItemOutcome::Deleted]);
    assert_eq!(outcome.deleted_count(), 1);
}

#[test]
fn unknown_rule_id_is_excluded() {
    let platform = FakePlatform::new().with_dir(KnownDir::UserTemp, "/base");
    let rules = vec![test_rule("user_temp", KnownDir::UserTemp, false)];
    let entries = vec![scan_entry("not_a_real_rule", "/base/a.txt", 1, true)];

    let mode = DeleteMode::resolve(&Config::default(), DeleteRequest::permanent_confirmed());
    let plan = preview(&platform, &entries, &rules, mode);
    assert!(plan.is_empty());
    assert_eq!(plan.excluded()[0].reason, ExclusionReason::UnknownRule);

    let outcome = execute(plan, &Vec::new());
    assert!(outcome.results.is_empty());
}

#[test]
fn needs_admin_rule_is_excluded_even_if_selected() {
    let platform = FakePlatform::new().with_dir(KnownDir::SystemTemp, "/base");
    let rules = vec![test_rule("system_temp", KnownDir::SystemTemp, true)];
    let entries = vec![scan_entry("system_temp", "/base/a.txt", 1, true)];

    let mode = DeleteMode::resolve(&Config::default(), DeleteRequest::permanent_confirmed());
    let plan = preview(&platform, &entries, &rules, mode);
    assert!(plan.is_empty());
    assert_eq!(plan.excluded()[0].reason, ExclusionReason::NeedsAdmin);
}

#[test]
fn requires_admin_path_is_excluded() {
    let platform =
        FakePlatform::new().with_dir(KnownDir::UserTemp, "/base").admin_path("/base/a.txt");
    let rules = vec![test_rule("user_temp", KnownDir::UserTemp, false)];
    let entries = vec![scan_entry("user_temp", "/base/a.txt", 1, true)];

    let mode = DeleteMode::resolve(&Config::default(), DeleteRequest::permanent_confirmed());
    let plan = preview(&platform, &entries, &rules, mode);
    assert!(plan.is_empty());
    assert_eq!(plan.excluded()[0].reason, ExclusionReason::NeedsAdmin);
}

#[test]
fn rights_reach_the_rules_that_need_them_and_no_others() {
    let platform = FakePlatform::new()
        .with_dir(KnownDir::SystemTemp, "/sys")
        .with_dir(KnownDir::UserTemp, "/base")
        .admin_path("/sys/a")
        .admin_path("/base/a")
        .elevated();
    let rules = vec![
        test_rule("system_temp", KnownDir::SystemTemp, true),
        test_rule("user_temp", KnownDir::UserTemp, false),
    ];
    let entries = vec![
        scan_entry("system_temp", "/sys/a", 1, true),
        scan_entry("user_temp", "/base/a", 1, true),
    ];
    let mode = DeleteMode::resolve(&config_with(true, false), DeleteRequest::execute());
    let plan = preview(&platform, &entries, &rules, mode);
    assert_eq!(plan.item_count(), 1);
    assert_eq!(plan.items()[0].rule_id, "system_temp");
    assert_eq!(plan.excluded()[0].reason, ExclusionReason::NeedsAdmin);
}

#[test]
fn entries_outside_the_rule_base_are_excluded() {
    let platform = FakePlatform::new().with_dir(KnownDir::UserTemp, "/base");
    let rules = vec![test_rule("user_temp", KnownDir::UserTemp, false)];
    let entries = vec![
        scan_entry("user_temp", "/outside.txt", 1, true),
        scan_entry("user_temp", "/base", 0, true),
        scan_entry("user_temp", "/base/../outside.txt", 1, true),
        scan_entry("user_temp", "/base2/a", 1, true),
    ];

    let mode = DeleteMode::resolve(&Config::default(), DeleteRequest::permanent_confirmed());
    let plan = preview(&platform, &entries, &rules, mode);
    assert!(plan.is_empty());
    assert!(plan.excluded().iter().all(|e| e.reason == ExclusionReason::OutsideRuleBase));
}

#[test]
fn a_base_that_cannot_be_resolved_excludes_the_entry() {
    let platform = FakePlatform::new();
    let rules = vec![test_rule("user_temp", KnownDir::UserTemp, false)];
    let entry = scan_entry("user_temp", "/base/a", 1, true);
    let mode = DeleteMode::resolve(&config_with(true, false), DeleteRequest::execute());
    assert_eq!(
        plan_entry(&platform, &entry, &rules, &mode).err(),
        Some(ExclusionReason::UnresolvedBase)
    );
}

#[test]
fn permanent_mode_removes_files_directly_without_using_to_trash() {
    let platform = FakePlatform::new().with_dir(KnownDir::Downloads, "/base");
    let rules = vec![test_rule("old_downloads", KnownDir::Downloads, false)];
    let entries = vec![scan_entry("old_downloads", "/base/a.txt", 1, true)];

    let mode = DeleteMode::resolve(&Config::default(), DeleteRequest::permanent_confirmed());
    let plan = preview(&platform, &entries, &rules, mode);
    assert_eq!(plan.items()[0].action, DeleteAction::RemovePath);

    let outcome = execute(plan, &vec![ItemOutcome::Deleted]);
    assert_eq!(outcome.deleted_count(), 1);
    assert_eq!(outcome.method(), DeleteMethod::Permanent);
}

#[test]
fn recycle_bin_entries_require_permanent_mode_and_keep_the_container() {
    let platform = FakePlatform::new().with_dir(KnownDir::RecycleBin, "/Recycle");
    let rules = vec![test_rule("recycle_bin", KnownDir::RecycleBin, false)];
    let entries = vec![scan_entry("recycle_bin", "/Recycle/S-1-5-21-example", 1, true)];

    let mode = DeleteMode::resolve(&config_with(true, false), DeleteRequest::execute());
    let plan = preview(&platform, &entries, &rules, mode);
    assert!(plan.is_empty());
    assert_eq!(plan.excluded()[0].reason, ExclusionReason::RequiresPermanent);

    let mode = DeleteMode::resolve(&Config::default(), DeleteRequest::permanent_confirmed());
    let plan = preview(&platform, &entries, &rules, mode);
    assert_eq!(plan.items()[0].action, DeleteAction::EmptyContainer);

    let outcome = execute(plan, &vec![ItemOutcome::Deleted]);
    assert_eq!(outcome.deleted_count(), 1);
}

#[test]
fn one_failure_does_not_stop_other_deletions() {
    let platform = FakePlatform::new().with_dir(KnownDir::UserTemp, "/base");
    let rules = vec![test_rule("user_temp", KnownDir::UserTemp, false)];
    let entries = vec![
        scan_entry("user_temp", "/base/ok.txt", 1, true),
        scan_entry("user_temp", "/base/bad.txt", 1, true),
    ];

    let mode = DeleteMode::resolve(&config_with(true, false), DeleteRequest::execute());
    let plan = preview(&platform, &entries, &rules, mode);
    let failed = ItemOutcome::from_attempt(Err("simulated failure".to_string()));
    let outcome = execute(plan, &vec![ItemOutcome::from_attempt(Ok(())), failed]);

    assert_eq!(outcome.deleted_count(), 1);
    assert_eq!(outcome.failed_count(), 1);
    assert_eq!(outcome.freed_bytes(), 1);
    assert_eq!(
        outcome.results[1].outcome,
        ItemOutcome::Failed { message: "simulated failure".to_string() }
    );
}

#[test]
fn missing_file_at_execution_time_is_reported_as_missing_not_failed() {
    let platform = FakePlatform::new().with_dir(KnownDir::UserTemp, "/base");
    let rules = vec![test_rule("user_temp", KnownDir::UserTemp, false)];
    let entries = vec![scan_entry("user_temp", "/base/a.txt", 1, true)];

    let mode = DeleteMode::resolve(&config_with(true, false), DeleteRequest::execute());
    let plan = preview(&platform, &entries, &rules, mode);
    let (run, _) = Execution::start(plan);
    let item = run.next_item().unwrap();
    let outcome = match deletion_step(false, item.action) {
        DeletionStep::Missing => ItemOutcome::Missing,
        _ => ItemOutcome::Deleted,
    };
    let (run, _) = run.record(outcome);
    let (outcome, _) = run.finish();
    assert_eq!(outcome.results[0].outcome, ItemOutcome::Missing);
    assert_eq!(outcome.failed_count(), 0);
    assert_eq!(outcome.freed_bytes(), 0);
}

#[test]
fn what_is_there_is_deleted_by_its_action() {
    assert_eq!(deletion_step(true, DeleteAction::ToTrash), DeletionStep::ToTrash);
    assert_eq!(deletion_step(true, DeleteAction::RemovePath), DeletionStep::RemovePath);
    assert_eq!(deletion_step(true, DeleteAction::EmptyContainer), DeletionStep::EmptyContainer);
    assert_eq!(deletion_step(false, DeleteAction::EmptyContainer), DeletionStep::Missing);
}

#[test]
fn sizes_are_counted_whatever_the_files_come_to() {
    let platform = FakePlatform::new().with_dir(KnownDir::UserTemp, "/base");
    let rules = vec![test_rule("user_temp", KnownDir::UserTemp, false)];
    let mut entries = vec![
        scan_entry("user_temp", "/base/a", 3, true),
        scan_entry("user_temp", "/base/b", 4, true),
    ];
    entries[0].file_count = u64::MAX;
    let mode = DeleteMode::resolve(&config_with(true, false), DeleteRequest::execute());
    let plan = preview(&platform, &entries, &rules, mode);
    assert!(plan.size_fits());
    assert!(!plan.files_fit());
    assert_eq!(plan.total_size(), 7);
    let outcome = execute(plan, &vec![ItemOutcome::Deleted, ItemOutcome::Deleted]);
    assert_eq!(outcome.freed_bytes(), 7);
}

fn two_items() -> DeletePlan {
    let platform = FakePlatform::new().with_dir(KnownDir::UserTemp, "/base");
    let rules = vec![test_rule("user_temp", KnownDir::UserTemp, false)];
    let entries = vec![
        scan_entry("user_temp", "/base/a", 3, true),
        scan_entry("user_temp", "/base/b", 4, true),
    ];
    let mode = DeleteMode::resolve(&config_with(true, false), DeleteRequest::execute());
    preview(&platform, &entries, &rules, mode)
}

#[test]
fn progress_is_reported_from_start_to_finish() {
    let (outcome, events) =
        execute_with_progress(two_items(), &vec![ItemOutcome::Deleted, ItemOutcome::Missing]);
    assert_eq!(outcome.freed_bytes(), 3);
    assert_eq!(events.len(), 4);
    assert_eq!(
        events[0],
        DeleteProgress::Started { total_items: 2, total_size: 7, dry_run: false }
    );
    assert_eq!(
        events[1],
        DeleteProgress::ItemFinished {
            path: path("/base/a"),
            outcome: ItemOutcome::Deleted,
            freed: 3,
            done: 1,
            total: 2,
        }
    );
    assert_eq!(events[3], DeleteProgress::Finished { deleted: 1, failed: 0, freed_bytes: 3 });
}

#[test]
fn a_plan_is_executed_item_by_item() {
    let (mut run, _) = Execution::start(two_items());
    let mut seen = Vec::new();
    while let Some(item) = run.next_item() {
        seen.push(item.path.text.clone());
        let (next, _) = run.record(ItemOutcome::Deleted);
        run = next;
    }
    assert!(run.is_done());
    let (outcome, _) = run.finish();
    assert_eq!(seen, vec!["/base/a", "/base/b"]);
    assert_eq!(outcome.freed_bytes(), 7);
}

#[test]
fn a_link_is_removed_and_never_what_it_points_to() {
    assert_eq!(removal_of(true, true), Removal::Link);
    assert_eq!(removal_of(true, false), Removal::Link);
    assert_eq!(removal_of(false, true), Removal::Tree);
    assert_eq!(removal_of(false, false), Removal::File);
}

#[test]
fn emptying_a_container_fails_with_the_last_error() {
    assert!(container_result(vec![Ok(()), Ok(())]).is_ok());
    assert!(container_result(Vec::new()).is_ok());
    let results = vec![Err("first".to_string()), Err("second".to_string()), Ok(())];
    assert_eq!(container_result(results).unwrap_err(), "second");
}

#[test]
fn breakdowns_cover_the_plan_and_the_selection() {
    let plan = two_items();
    let categories = by_rule(&from_plan(&plan));
    assert_eq!(categories.len(), 1);
    assert_eq!(categories[0].total_size, plan.total_size());
    assert_eq!(categories[0].file_count, plan.total_file_count());

    let entries =
        vec![scan_entry("a", "/x", 10, true), scan_entry("a", "/y", 20, false)];
    let items = from_selected_entries(&entries);
    assert_eq!(items.len(), 1);
    assert_eq!(items[0].size, 10);
}

// ---- History ----

#[test]
fn entry_from_outcome_ignores_dry_runs() {
    let platform = FakePlatform::new().with_dir(KnownDir::UserTemp, "/base");
    let rules = vec![test_rule("user_temp", KnownDir::UserTemp, false)];
    let entries = vec![scan_entry("user_temp", "/base/a.tmp", 5, true)];
    let mode = DeleteMode::resolve(&Config::default(), DeleteRequest::from_config());
    let plan = preview(&platform, &entries, &rules, mode);
    let outcome = execute(plan, &Vec::new());
    assert!(outcome.is_dry_run());
    assert_eq!(entry_from_outcome(&outcome, 1_700_000_000, 1), None);
}

#[test]
fn entry_from_outcome_ignores_runs_that_deleted_nothing() {
    let platform = FakePlatform::new().with_dir(KnownDir::UserTemp, "/base");
    let config = Config { dry_run_default: false, ..Config::default() };
    let mode = DeleteMode::resolve(&config, DeleteRequest::from_config());
    let rules = vec![test_rule("user_temp", KnownDir::UserTemp, false)];
    let plan = preview(&platform, &[], &rules, mode);
    let outcome = execute(plan, &Vec::new());
    assert_eq!(outcome.deleted_count(), 0);
    assert_eq!(entry_from_outcome(&outcome, 1_700_000_000, 1), None);
}

#[test]
fn entry_from_outcome_records_freed_bytes_and_counts() {
    let platform = FakePlatform::new().with_dir(KnownDir::UserTemp, "/base");
    let config = Config { dry_run_default: false, use_trash: true, ..Config::default() };
    let mode = DeleteMode::resolve(&config, DeleteRequest::from_config());
    let rules = vec![test_rule("user_temp", KnownDir::UserTemp, false)];
    let entries = vec![scan_entry("user_temp", "/base/a.tmp", 5, true)];
    let plan = preview(&platform, &entries, &rules, mode);
    let outcome = execute(plan, &vec![ItemOutcome::Deleted]);
    assert!(!outcome.is_dry_run());
    assert_eq!(outcome.deleted_count(), 1);

    let recorded = entry_from_outcome(&outcome, 42, 9).unwrap();
    assert_eq!(recorded.timestamp_secs, 42);
    assert_eq!(recorded.freed_bytes, outcome.freed_bytes());
    assert_eq!(recorded.deleted_count, 1);
    assert_eq!(recorded.failed_count, 0);
    assert!(!recorded.permanent);
    assert_eq!(recorded.run_id, 9);

    let early = entry_from_outcome(&outcome, -5, 9).unwrap();
    assert_eq!(early.timestamp_secs, 0);
}

#[test]
fn a_recorded_run_is_the_most_recent() {
    let outcome = execute(two_items(), &vec![ItemOutcome::Deleted, ItemOutcome::Deleted]);
    let mut history = History::default();
    assert!(pc_cleaner::history::record_outcome(&mut history, &outcome, 100, 3));
    push(&mut history, entry_from_outcome(&outcome, 200, 4).unwrap());
    assert_eq!(history.recent(1)[0].run_id, 4);
    assert_eq!(history.run_count(), 2);
}

#[test]
fn a_run_is_saved_only_where_the_history_was_read() {
    let platform = FakePlatform::new().with_config_dir("/config");
    let outcome = execute(two_items(), &vec![ItemOutcome::Deleted, ItemOutcome::Deleted]);
    let nothing = execute(two_items(), &vec![ItemOutcome::Missing, ItemOutcome::Missing]);
    let read = || Ok(History::default());

    assert!(matches!(
        record_step(&FakePlatform::new(), read(), &outcome, 100, 3),
        HistoryStep::NoPlace
    ));
    match record_step(&platform, Err("broken".to_string()), &outcome, 100, 3) {
        HistoryStep::Unread { error } => assert_eq!(error, "broken"),
        other => panic!("{other:?}"),
    }
    match record_step(&platform, read(), &nothing, 100, 3) {
        HistoryStep::Keep { history } => assert_eq!(history, History::default()),
        other => panic!("{other:?}"),
    }
    match record_step(&platform, read(), &outcome, 100, 3) {
        HistoryStep::Save { path, history } => {
            assert!(path.text.ends_with("history.json"));
            assert_eq!(history.entries, vec![entry_from_outcome(&outcome, 100, 3).unwrap()]);
        }
        other => panic!("{other:?}"),
    }
}

// ---- The deletion log ----

fn sample_record(run_id: u64, at: &str) -> AuditRecord {
    AuditRecord {
        run_id,
        timestamp_secs: 1_700_000_000,
        rule_id: "user_temp".to_string(),
        path: path(at),
        size: 1024,
        action: DeleteAction::ToTrash,
        outcome: ItemOutcome::Deleted,
        method: DeleteMethod::Trash,
    }
}

#[test]
fn records_from_outcome_ignores_dry_runs() {
    let platform = FakePlatform::new().with_dir(KnownDir::UserTemp, "/base");
    let rules = vec![test_rule("user_temp", KnownDir::UserTemp, false)];
    let entries = vec![scan_entry("user_temp", "/base/a.tmp", 5, true)];
    let mode = DeleteMode::resolve(&Config::default(), DeleteRequest::from_config());
    let plan = preview(&platform, &entries, &rules, mode);
    let outcome = execute(plan, &Vec::new());
    assert!(outcome.is_dry_run());
    assert!(records_from_outcome(&outcome, 1, 1_700_000_000).is_empty());
}

#[test]
fn records_from_outcome_includes_all_results_not_just_successes() {
    let platform = FakePlatform::new().with_dir(KnownDir::UserTemp, "/base");
    let config = Config { dry_run_default: false, use_trash: true, ..Config::default() };
    let mode = DeleteMode::resolve(&config, DeleteRequest::from_config());
    let rules = vec![test_rule("user_temp", KnownDir::UserTemp, false)];
    let entries = vec![
        scan_entry("user_temp", "/base/ok.tmp", 5, true),
        scan_entry("user_temp", "/base/missing.tmp", 3, true),
    ];
    let plan = preview(&platform, &entries, &rules, mode);
    let outcome = execute(plan, &vec![ItemOutcome::Deleted, ItemOutcome::Missing]);

    let records = records_from_outcome(&outcome, 42, 0);
    assert_eq!(records.len(), 2);
    assert!(records.iter().all(|r| r.run_id == 42));
    let ok_record = records.iter().find(|r| r.path == path("/base/ok.tmp")).unwrap();
    assert_eq!(ok_record.outcome, ItemOutcome::Deleted);
    assert_eq!(ok_record.action, DeleteAction::ToTrash);
    assert_eq!(ok_record.method, DeleteMethod::Trash);
    let missing = records.iter().find(|r| r.path == path("/base/missing.tmp")).unwrap();
    assert_eq!(missing.outcome, ItemOutcome::Missing);
}

#[test]
fn next_run_id_is_unique_and_increasing_within_a_process() {
    let now = 1_700_000_000;
    let a = next_run_id(now, 0, None);
    let b = next_run_id(now, 1, Some(a));
    assert_ne!(a, b);
    assert!(b > a);
    assert_eq!(a, 1_700_000_000_000_000);
    assert_eq!(b, 1_700_000_000_000_001);
    assert_eq!(next_run_id(-1, 3, None), 3);
}

#[test]
fn run_ids_increase_over_a_full_second_and_a_clock_set_back() {
    let now = 1_700_000_000;
    let a = next_run_id(now, 999_999, None);
    assert_eq!(a, 1_700_000_000_999_999);
    let b = next_run_id(now, 1_000_000, Some(a));
    assert_eq!(b, a + 1);
    let c = next_run_id(now - 60, 1_000_001, Some(b));
    assert_eq!(c, b + 1);
    let d = next_run_id(now + 60, 1_000_002, Some(c));
    assert_eq!(d, 1_700_000_060_000_002);
}

#[test]
fn filter_by_run_only_returns_matching_records() {
    let records =
        vec![sample_record(1, "a.tmp"), sample_record(2, "b.tmp"), sample_record(1, "c.tmp")];
    let filtered = filter_by_run(&records, 1);
    assert_eq!(filtered.len(), 2);
    assert!(filtered.iter().all(|r| r.run_id == 1));
}

#[test]
fn record_outcome_does_nothing_when_disabled() {
    let platform =
        FakePlatform::new().with_dir(KnownDir::UserTemp, "/base").with_config_dir("/config");
    let config = Config { audit_log_enabled: false, ..config_with(true, false) };
    let outcome = execute(two_items(), &vec![ItemOutcome::Deleted, ItemOutcome::Deleted]);
    assert!(matches!(
        record_outcome(&platform, &config, &outcome, 1, 0),
        AuditStep::Disabled
    ));
}

#[test]
fn record_outcome_returns_none_when_config_dir_unresolved() {
    let platform = FakePlatform::new();
    let config = Config::default();
    let rules = vec![test_rule("user_temp", KnownDir::UserTemp, false)];
    let plan = preview(
        &platform,
        &[],
        &rules,
        DeleteMode::resolve(&config, DeleteRequest::dry_run()),
    );
    let outcome = execute(plan, &Vec::new());
    assert!(matches!(record_outcome(&platform, &config, &outcome, 1, 0), AuditStep::NoPlace));
}

#[test]
fn a_run_is_appended_to_the_log_in_the_settings_directory() {
    let platform = FakePlatform::new().with_config_dir("/config");
    let outcome = execute(two_items(), &vec![ItemOutcome::Deleted, ItemOutcome::Deleted]);
    match record_outcome(&platform, &Config::default(), &outcome, 7, 50) {
        AuditStep::Append { path, records } => {
            assert!(path.text.starts_with("/config"));
            assert!(path.text.ends_with("deletion_log.jsonl"));
            assert_eq!(records.len(), 2);
            assert_eq!(records[0].timestamp_secs, 50);
            assert_eq!(records[0].run_id, 7);
        }
        _ => panic!("expected records to append"),
    }
}

#[test]
fn files_are_kept_in_the_settings_directory() {
    let platform = FakePlatform::new().with_config_dir("/config");
    let sep = std::path::MAIN_SEPARATOR;
    assert_eq!(
        audit_file_path(&platform).unwrap().text,
        format!("/config{sep}deletion_log.jsonl")
    );
    assert_eq!(
        backup_file_path(&platform).unwrap().text,
        format!("/config{sep}deletion_log.1.jsonl")
    );
    assert_eq!(history_file_path(&platform).unwrap().text, format!("/config{sep}history.json"));
    assert_eq!(
        pc_cleaner::config::config_file_path(&platform).unwrap().text,
        format!("/config{sep}config.json")
    );
    assert!(audit_file_path(&FakePlatform::new()).is_none());
}

#[test]
fn append_rotates_to_backup_when_exceeding_max_bytes() {
    assert!(rotate_if_needed(Some(MAX_LOG_BYTES + 1)));
    assert!(!rotate_if_needed(Some(MAX_LOG_BYTES)));
    assert!(!rotate_if_needed(Some(MAX_LOG_BYTES - 1)));
    assert!(!rotate_if_needed(None));
}

#[test]
fn blank_lines_of_the_log_are_passed_over() {
    assert_eq!(log_lines("a\r\n\n  \nb c\n"), vec!["a", "b c"]);
    assert!(log_lines("").is_empty());
}
