use pc_cleaner::panel::{
    confirm_text, excluded_text, failures_text, freed_text, restored_text, selection_text,
    summary_text, task_text, type_count_text, undo_text,
};
use pc_cleaner::path::{FilePath, PathPart};
use pc_cleaner::platform::{
    ElevateError, ElevateResult, KnownDir, Platform, PlatformError, RestoreItemOutcome, TrashEntry,
};
use pc_cleaner::session::{RestoreSummary, Session, Setting, Task};
use pc_cleaner::view::Scope;
use pc_cleaner::{
    execute, AuditRecord, Config, DeleteAction, DeleteMethod, DeleteProgress, History,
    HistoryEntry, ItemOutcome, Lang, MatchKind, RestoreOutcome, Rule, RulePref, Safety, ScanEntry,
    ScanProgress, SkipReason,
};

fn path(text: &str) -> FilePath {
    let mut parts = Vec::new();
    if text.starts_with('/') {
        parts.push(PathPart::RootDir);
    }
    for name in text.split('/') {
        if !name.is_empty() {
            parts.push(PathPart::Normal(name.to_string()));
        }
    }
    FilePath { text: text.to_string(), parts }
}

struct FakePlatform;

impl Platform for FakePlatform {
    fn known_dir(&self, kind: KnownDir) -> Option<FilePath> {
        match kind {
            KnownDir::UserTemp => Some(path("/base")),
            KnownDir::RecycleBin => Some(path("/bin")),
            _ => None,
        }
    }
    fn to_trash(&self, _path: &FilePath) -> Result<(), PlatformError> {
        Ok(())
    }
    fn requires_admin(&self, _path: &FilePath) -> bool {
        false
    }
    fn config_dir(&self) -> Option<FilePath> {
        None
    }
    fn is_elevated(&self) -> bool {
        false
    }
    fn elevate(&self, _args: &[String]) -> ElevateResult {
        Err(ElevateError::Unsupported)
    }
    fn is_file_in_use(&self, _path: &FilePath) -> Option<bool> {
        None
    }
    fn list_trash(&self) -> Result<Vec<TrashEntry>, PlatformError> {
        Err(PlatformError::Unsupported("list_trash"))
    }
    fn restore_from_trash(&self, _ids: &[String]) -> Vec<(String, RestoreItemOutcome)> {
        Vec::new()
    }
}

fn rule() -> Rule {
    Rule {
        id: "user_temp".to_string(),
        label: "ユーザー一時ファイル".to_string(),
        description: "テスト用".to_string(),
        base: KnownDir::UserTemp,
        match_kind: MatchKind::All,
        needs_admin: false,
        safety: Safety::Safe,
        age_threshold_days: None,
        large_file_threshold_bytes: None,
        is_user_defined: false,
    }
}

fn entry(at: &str, size: u64, selected: bool) -> ScanEntry {
    ScanEntry {
        rule_id: "user_temp".to_string(),
        path: path(at),
        size,
        file_count: 1,
        modified: None,
        age_days: Some(3),
        in_use: None,
        duplicate: None,
        recommended: selected,
        reason: String::new(),
        selected,
    }
}

fn fresh() -> Session {
    Session::new(Config::default(), None, None, false, false)
}

fn scanned() -> Session {
    let mut s = fresh();
    s.start();
    s.on_scan_done(
        vec![rule()],
        vec![rule()],
        vec![entry("/base/a", 1024, true), entry("/base/b", 10, false)],
        &Vec::new(),
    );
    let plan = s.make_plan(&FakePlatform);
    s.recompute_plan(plan);
    s
}

#[test]
fn what_cannot_be_read_is_told_at_the_start() {
    let quiet = fresh();
    assert!(quiet.notices.is_empty());
    assert!(!quiet.is_busy());

    let s = Session::new(
        Config::default(),
        Some(Err("h".to_string())),
        Some(Err("l".to_string())),
        false,
        true,
    );
    assert_eq!(s.notices.len(), 3);
    assert_eq!(
        s.notices[0],
        "履歴の読み込みに失敗しました（h）。過去の実績が正しく表示されない場合があります。"
    );
    assert_eq!(s.notices[2], "削除ログの読み込みに失敗しました（l）。");
}

#[test]
fn the_first_scan_begins_once() {
    let mut s = fresh();
    assert!(s.start());
    assert!(s.is_busy());
    assert!(s.waiting);
    assert!(!s.start());
}

#[test]
fn scans_report_how_far_they_have_come() {
    let mut s = fresh();
    s.start();
    assert_eq!(task_text(&s.task, Lang::Ja).unwrap(), "走査中: 準備中 … 0 件");
    s.on_scan_progress(&ScanProgress::RuleStarted {
        rule_id: "user_temp".to_string(),
        base: path("/base"),
    });
    s.on_scan_progress(&ScanProgress::Walking {
        rule_id: "user_temp".to_string(),
        files_scanned: 512,
        bytes_scanned: 1,
    });
    assert_eq!(task_text(&s.task, Lang::En).unwrap(), "Scanning: user_temp … 512 items");
    s.on_scan_progress(&ScanProgress::RuleSkipped {
        rule_id: "x".to_string(),
        reason: SkipReason::UnknownBase,
    });
    assert_eq!(s.skipped, vec![("x".to_string(), SkipReason::UnknownBase)]);
}

#[test]
fn notices_on_the_rule_file_are_those_of_the_last_scan() {
    let mut s = fresh();
    s.notices.push("other".to_string());
    s.on_scan_done(Vec::new(), Vec::new(), Vec::new(), &vec!["old".to_string()]);
    s.on_scan_done(Vec::new(), Vec::new(), Vec::new(), &vec!["new".to_string()]);
    assert_eq!(s.notices, vec!["other", "ルール定義: new"]);
}

#[test]
fn plans_follow_the_selection() {
    let mut s = scanned();
    assert!(!s.needs_plan());
    assert_eq!(s.plan.as_ref().unwrap().item_count(), 1);
    assert_eq!(s.breakdown.len(), 1);
    assert_eq!(s.buckets.len(), 5);
    s.select(1, true);
    assert!(s.needs_plan());
    let plan = s.make_plan(&FakePlatform);
    s.recompute_plan(plan);
    assert_eq!(s.plan.as_ref().unwrap().item_count(), 2);
    assert_eq!(
        selection_text(2, s.plan.as_ref().unwrap().total_size(), Lang::Ja),
        "選択中: 2 件（1.0 KB）を解放"
    );
}

#[test]
fn rules_out_of_reach_cannot_be_adjusted() {
    let mut s = fresh();
    let admin = Rule { id: "admin".to_string(), needs_admin: true, ..rule() };
    s.on_scan_done(Vec::new(), vec![rule(), admin], Vec::new(), &Vec::new());
    assert_eq!(s.adjustable_rules().len(), 1);
    s.elevated = true;
    assert_eq!(s.adjustable_rules().len(), 2);
}

#[test]
fn the_recycle_bin_is_hinted_at() {
    assert!(!scanned().hints_at_recycle_bin());
    let mut with_bin = fresh();
    assert!(!with_bin.hints_at_recycle_bin());
    with_bin.on_scan_done(
        vec![Rule { base: KnownDir::RecycleBin, ..rule() }],
        Vec::new(),
        vec![entry("/bin/a", 1, true)],
        &Vec::new(),
    );
    let plan = with_bin.make_plan(&FakePlatform);
    with_bin.recompute_plan(plan);
    assert!(with_bin.hints_at_recycle_bin());
    with_bin.set_permanent(true);
    assert!(!with_bin.hints_at_recycle_bin());
}

#[test]
fn a_plan_is_executed_once_confirmed() {
    let mut s = scanned();
    assert!(s.proceed(&FakePlatform).is_none());
    assert!(s.can_confirm());
    s.ask_confirmation();
    let c = s.confirmation().unwrap();
    assert!(c.can_proceed);
    assert_eq!(confirm_text(&c, Lang::Ja), "1 件（1.0 KB）をゴミ箱へ送ります。");
    assert_eq!(confirm_text(&c, Lang::En), "Send 1 items (1.0 KB) to the Recycle Bin.");

    let plan = s.proceed(&FakePlatform).unwrap();
    assert!(!plan.mode().is_dry_run());
    assert!(plan.mode().method() == DeleteMethod::Trash);
    assert!(s.plan.is_none());
    assert_eq!(s.task, Task::Deleting { done: 0, total: 1 });

    s.on_delete_progress(&DeleteProgress::ItemFinished {
        path: path("/base/a"),
        outcome: ItemOutcome::Deleted,
        freed: 1024,
        done: 1,
        total: 1,
    });
    assert_eq!(task_text(&s.task, Lang::Ja).unwrap(), "削除中: 1 / 1 件");

    s.on_delete_done(&execute(plan, &vec![ItemOutcome::Deleted]));
    assert!(s.entries.is_empty());
    let summary = s.last_outcome.as_ref().unwrap();
    assert_eq!(summary_text(summary, Lang::Ja), "削除完了: 成功 1 件、失敗 0 件、解放 1.0 KB");
    assert_eq!(
        summary_text(summary, Lang::En),
        "Deletion complete: 1 succeeded, 0 failed, 1.0 KB freed"
    );
}

#[test]
fn deletion_for_good_takes_the_typed_count() {
    let mut s = scanned();
    s.set_permanent(true);
    let plan = s.make_plan(&FakePlatform);
    assert!(plan.mode().is_dry_run());
    s.recompute_plan(plan);
    s.ask_confirmation();
    assert!(!s.confirmation().unwrap().can_proceed);
    s.permanent_confirm_text = "2".to_string();
    assert!(s.proceed(&FakePlatform).is_none());
    s.permanent_confirm_text = " 1 ".to_string();
    let c = s.confirmation().unwrap();
    assert!(c.can_proceed);
    assert_eq!(
        confirm_text(&c, Lang::Ja),
        "1 件（1.0 KB）を完全に削除します（ゴミ箱を経由せず、復元できません）。"
    );
    let plan = s.proceed(&FakePlatform).unwrap();
    assert!(!plan.mode().is_dry_run());
    assert!(plan.mode().method() == DeleteMethod::Permanent);
    assert!(!s.permanent);
    assert_eq!(s.permanent_confirm_text, "");
}

#[test]
fn nothing_is_confirmed_once_cancelled() {
    let mut s = scanned();
    s.set_dry_run(true);
    s.ask_confirmation();
    s.permanent_confirm_text = "1".to_string();
    s.cancel_confirmation();
    assert!(s.confirmation().is_none());
    assert_eq!(s.permanent_confirm_text, "");
    assert!(s.proceed(&FakePlatform).is_none());
}

#[test]
fn settings_change_one_thing_each() {
    let mut s = scanned();
    assert!(!s.change_setting(Setting::UseTrash(false)));
    assert!(!s.config.use_trash);
    assert!(s.plan_dirty);
    assert!(s.change_setting(Setting::LargeFileMib(3)));
    assert_eq!(s.config.large_file_threshold_bytes, 3 * 1024 * 1024);
    assert_eq!(s.large_file_mib(), 3);
    assert!(s.change_setting(Setting::Language(Lang::En)));
    assert_eq!(s.config.lang, Lang::En);

    s.change_pref("user_temp", RulePref::Exclude);
    assert!(s.entries.iter().all(|e| !e.selected));
    s.change_threshold("old_logs", 7);
    assert_eq!(s.config.age_thresholds.get("old_logs"), Some(7));
    s.change_scope(Scope::All);
    assert_eq!(s.scope, Scope::All);
    assert!(s.is_busy());
}

#[test]
fn failures_to_save_are_told() {
    let mut s = fresh();
    s.on_saved(&Some(Ok(())));
    assert!(s.notices.is_empty());
    s.on_saved(&Some(Err("x".to_string())));
    s.on_saved(&None);
    assert_eq!(
        s.notices,
        vec!["設定の保存に失敗しました: x", "この環境では設定の保存先を特定できません。"]
    );
}

fn record(run_id: u64) -> AuditRecord {
    AuditRecord {
        run_id,
        timestamp_secs: 0,
        rule_id: "user_temp".to_string(),
        path: path("/a"),
        size: 1,
        action: DeleteAction::ToTrash,
        outcome: ItemOutcome::Deleted,
        method: DeleteMethod::Trash,
    }
}

#[test]
fn runs_and_records_are_taken_over() {
    let mut s = fresh();
    let mut history = History::default();
    history.entries.push(HistoryEntry {
        run_id: 1,
        timestamp_secs: 0,
        freed_bytes: 2048,
        deleted_count: 1,
        failed_count: 0,
        permanent: false,
    });
    s.record_history(Some(Ok(history)));
    assert_eq!(freed_text(&s.history, Lang::Ja), "累計 2.0 KB を解放（1 回）");
    assert_eq!(freed_text(&s.history, Lang::En), "2.0 KB freed in total (1 runs)");
    s.record_audit(Some(Ok(vec![record(1)])));
    s.record_audit(Some(Ok(vec![record(2)])));
    assert_eq!(s.audit_records.len(), 2);
    s.record_audit(None);
    assert_eq!(s.notices, vec!["この環境では削除ログの保存先を特定できません。"]);
}

#[test]
fn the_window_closes_once_another_has_the_rights() {
    let mut s = fresh();
    assert!(!s.on_elevated(&Err(ElevateError::Cancelled)));
    assert_eq!(s.notices, vec!["管理者権限での実行はキャンセルされました。"]);
}

#[test]
fn rights_are_asked_for_where_they_are_missing() {
    let mut s = fresh();
    s.ask_elevation();
    assert!(s.confirming_elevation);
    s.cancel_elevation();
    assert!(!s.confirming_elevation);
    s.start();
    s.ask_elevation();
    assert!(!s.confirming_elevation);
    let mut elevated = Session::new(Config::default(), None, None, true, false);
    elevated.ask_elevation();
    assert!(!elevated.confirming_elevation);
}

#[test]
fn only_real_runs_are_recorded() {
    let mut s = scanned();
    s.ask_confirmation();
    let plan = s.proceed(&FakePlatform).unwrap();
    let outcome = execute(plan, &vec![ItemOutcome::Deleted]);
    assert!(s.is_recorded(&outcome));
    s.on_delete_done(&outcome);
    assert!(s.last_outcome.is_some());
    s.clear_outcome();
    assert!(s.last_outcome.is_none());

    let mut s = scanned();
    s.set_dry_run(true);
    let preview = s.make_plan(&FakePlatform);
    assert!(!s.is_recorded(&execute(preview, &Vec::new())));
}

#[test]
fn rules_of_the_user_are_counted() {
    let mut s = fresh();
    let own = Rule { id: "own".to_string(), is_user_defined: true, ..rule() };
    s.on_scan_done(vec![rule()], vec![rule(), own], Vec::new(), &Vec::new());
    assert_eq!(s.user_rule_count(), 1);
    s.type_confirmation("3".to_string());
    assert_eq!(s.permanent_confirm_text, "3");
}

#[test]
fn runs_are_undone_once_confirmed() {
    let mut s = fresh();
    assert!(s.start_restore().is_none());
    s.ask_restore(7);
    s.cancel_restore();
    assert!(s.start_restore().is_none());
    s.ask_restore(7);
    assert_eq!(s.start_restore(), Some(7));
    assert_eq!(s.task, Task::Restoring);
    assert_eq!(task_text(&s.task, Lang::Ja).unwrap(), "復元中…");

    let outcome = RestoreOutcome {
        results: vec![
            (path("/a"), RestoreItemOutcome::Restored),
            (path("/b"), RestoreItemOutcome::Failed { message: "x".to_string() }),
        ],
    };
    s.on_restore_done(&outcome);
    assert!(!s.is_busy());
    let summary = s.last_restore_outcome.as_ref().unwrap();
    assert_eq!(summary.failures, vec![(path("/b"), "x".to_string())]);
    assert_eq!(
        restored_text(summary, Lang::Ja),
        "直近の復元: 成功 1 件 / スキップ 0 件 / 対象消失 0 件 / 失敗 1 件"
    );
}

#[test]
fn lines_hold_their_numbers() {
    assert_eq!(
        excluded_text(2, Lang::Ja),
        "除外: 2 件（選択されていない・許可リスト外・要管理者権限など）"
    );
    assert_eq!(failures_text("使用中", 3, Lang::Ja), "失敗: 使用中（3件）");
    assert_eq!(failures_text("busy", 3, Lang::En), "Failed: busy (3 items)");
    assert_eq!(
        type_count_text(4, Lang::En),
        "To proceed, type the item count \"4\"."
    );
    assert!(undo_text(9, Lang::Ja).starts_with("実行 9 で削除した項目"));
    assert_eq!(task_text(&Task::Idle, Lang::Ja), None);
    let nothing = RestoreSummary {
        restored: 0,
        skipped: 0,
        not_found: 0,
        failed: 0,
        failures: Vec::new(),
    };
    assert_eq!(
        restored_text(&nothing, Lang::En),
        "Last restore: 0 succeeded / 0 skipped / 0 not found / 0 failed"
    );
}
