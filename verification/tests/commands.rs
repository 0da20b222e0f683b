use pc_cleaner::cli::{
    audit_line, clean_step, confirm_question, consent, elevation_report, exit_code, final_plan,
    first_plan, first_request, history_line, history_printout, is_affirmative, is_yes, log_report,
    outcome_printout, outcome_report, plan_printout, plan_summary, printed_export, refusal_report,
    relaunch_args, rule_warnings, scan_printout, scan_report, startup, write_report, CleanAction,
    CleanArgs, CleanEvent, Command, Consent, LogArgs, OutputFormat, ScopeArgs, Startup,
    EXIT_DECLINED, EXIT_FAILURE, EXIT_SUCCESS,
};
use pc_cleaner::path::{FilePath, PathPart};
use pc_cleaner::platform::{
    ElevateError, ElevateResult, KnownDir, Platform, PlatformError, RestoreItemOutcome, TrashEntry,
};
use pc_cleaner::ruleset::RuleSetIssue;
use pc_cleaner::{
    execute, AuditRecord, Config, DeleteAction, DeleteMethod, DeleteMode, DeletePlan,
    DeleteRequest, History, HistoryEntry, ItemOutcome, MatchKind, Rule, Safety, ScanEntry,
};

fn path(text: &str) -> FilePath {
    let mut parts = Vec::new();
    if text.starts_with('/') {
        parts.push(PathPart::RootDir);
    }
    for name in text.split('/') {
        if !name.is_empty() {
            parts.push(PathPart::Normal(name.to_string()));
        }
    }
    FilePath { text: text.to_string(), parts }
}

struct FakePlatform;

impl Platform for FakePlatform {
    fn known_dir(&self, kind: KnownDir) -> Option<FilePath> {
        match kind {
            KnownDir::UserTemp => Some(path("/base")),
            _ => None,
        }
    }
    fn to_trash(&self, _path: &FilePath) -> Result<(), PlatformError> {
        Ok(())
    }
    fn requires_admin(&self, _path: &FilePath) -> bool {
        false
    }
    fn config_dir(&self) -> Option<FilePath> {
        None
    }
    fn is_elevated(&self) -> bool {
        false
    }
    fn elevate(&self, _args: &[String]) -> ElevateResult {
        Err(ElevateError::Unsupported)
    }
    fn is_file_in_use(&self, _path: &FilePath) -> Option<bool> {
        None
    }
    fn list_trash(&self) -> Result<Vec<TrashEntry>, PlatformError> {
        Err(PlatformError::Unsupported("list_trash"))
    }
    fn restore_from_trash(&self, _ids: &[String]) -> Vec<(String, RestoreItemOutcome)> {
        Vec::new()
    }
}

fn rules() -> Vec<Rule> {
    vec![Rule {
        id: "user_temp".to_string(),
        label: "ユーザー一時ファイル".to_string(),
        description: "テスト用".to_string(),
        base: KnownDir::UserTemp,
        match_kind: MatchKind::All,
        needs_admin: false,
        safety: Safety::Safe,
        age_threshold_days: None,
        large_file_threshold_bytes: None,
        is_user_defined: false,
    }]
}

fn entry(at: &str, size: u64, selected: bool) -> ScanEntry {
    ScanEntry {
        rule_id: "user_temp".to_string(),
        path: path(at),
        size,
        file_count: 1,
        modified: None,
        age_days: Some(3),
        in_use: None,
        duplicate: None,
        recommended: selected,
        reason: String::new(),
        selected,
    }
}

fn clean() -> CleanArgs {
    CleanArgs {
        all: false,
        dry_run: false,
        permanent: false,
        yes: false,
        admin: false,
        format: OutputFormat::Text,
        output: None,
    }
}

fn first(args: &CleanArgs, entries: &[ScanEntry]) -> DeletePlan {
    first_plan(&FakePlatform, &Config::default(), entries, &rules(), args)
}

fn finished(args: &CleanArgs, answer: bool) -> DeletePlan {
    let entries = vec![entry("/base/a", 5, true)];
    let plan = first(args, &entries);
    final_plan(&FakePlatform, &Config::default(), &entries, &rules(), args, plan, answer)
}

#[test]
fn is_affirmative_accepts_y_and_yes_case_insensitively() {
    assert!(is_affirmative("y\n"));
    assert!(is_affirmative("Y\n"));
    assert!(is_affirmative("yes\n"));
    assert!(is_affirmative("YES\n"));
    assert!(!is_affirmative("\n"));
    assert!(!is_affirmative("n\n"));
    assert!(!is_affirmative("maybe\n"));
    assert!(is_affirmative("\u{3000} Yes \t\r\n"));
    assert!(!is_yes("Y"));
}

#[test]
fn main_relaunch_args_appends_elevated_marker() {
    let original = vec!["clean".to_string(), "--admin".to_string()];
    let relaunched = relaunch_args(&original);
    assert_eq!(
        relaunched,
        vec!["clean".to_string(), "--admin".to_string(), "--elevated".to_string()]
    );
}

#[test]
fn a_process_is_started_again_at_most_once() {
    let admin = Command::Scan(ScopeArgs {
        all: false,
        admin: true,
        format: OutputFormat::Text,
        output: None,
    });
    assert!(admin.admin_requested());
    assert_eq!(startup(&admin, false, false), Startup::Relaunch);
    assert_eq!(startup(&admin, false, true), Startup::RunWithoutRights);
    assert_eq!(startup(&admin, true, true), Startup::Run);
    assert_eq!(startup(&admin, true, false), Startup::Run);

    let log = Command::Log(LogArgs { limit: 20, run: None });
    assert!(!log.admin_requested());
    assert_eq!(startup(&log, false, false), Startup::Run);
    assert!(!Command::Clean(clean()).admin_requested());
}

#[test]
fn each_end_of_elevation_has_its_code() {
    let cancelled = elevation_report(&Err(ElevateError::Cancelled));
    assert_eq!(cancelled.code, EXIT_DECLINED);
    assert_eq!(cancelled.err.len(), 2);

    let failed = elevation_report(&Err(ElevateError::Unsupported));
    assert_eq!(failed.code, EXIT_FAILURE);
    assert_eq!(failed.err.len(), 1);
    assert!(failed.err[0].starts_with("管理者権限で実行し直せませんでした: "));
}

#[test]
fn warnings_show_the_messages() {
    let issues = vec![RuleSetIssue { rule_id: None, message: "x".to_string() }];
    assert_eq!(rule_warnings(&issues), vec!["警告: x"]);
}

#[test]
fn deletion_for_good_needs_consent() {
    let entries = vec![entry("/base/a", 5, true)];
    let permanent = CleanArgs { permanent: true, ..clean() };
    let yes = CleanArgs { permanent: true, yes: true, ..clean() };
    let json = CleanArgs { permanent: true, format: OutputFormat::Json, ..clean() };
    let dry = CleanArgs { permanent: true, yes: true, dry_run: true, ..clean() };

    assert_eq!(consent(&clean(), &first(&clean(), &entries)), Consent::NotNeeded);
    assert_eq!(consent(&permanent, &first(&permanent, &entries)), Consent::Ask);
    assert_eq!(consent(&permanent, &first(&permanent, &[])), Consent::NotNeeded);
    assert_eq!(consent(&yes, &first(&yes, &entries)), Consent::Given);
    assert_eq!(consent(&json, &first(&json, &entries)), Consent::CannotAsk);
    assert_eq!(consent(&dry, &first(&dry, &entries)), Consent::NotNeeded);

    assert!(finished(&permanent, false).mode().is_dry_run());
    assert!(!finished(&permanent, true).mode().is_dry_run());
    assert!(!finished(&yes, false).mode().is_dry_run());
    assert!(finished(&json, true).mode().is_dry_run());
    assert!(finished(&dry, true).mode().is_dry_run());
    assert!(finished(&permanent, true).mode().method() == DeleteMethod::Permanent);
    assert!(finished(&clean(), true).mode().method() == DeleteMethod::Trash);
}

#[test]
fn the_first_request_is_never_confirmed() {
    let config = Config { dry_run_default: false, ..Config::default() };
    assert!(DeleteMode::resolve(&config, first_request(false, true)).is_dry_run());
    assert!(DeleteMode::resolve(&config, first_request(true, false)).is_dry_run());
    assert!(!DeleteMode::resolve(&config, first_request(false, false)).is_dry_run());
}

#[test]
fn machines_get_the_plan_before_anything_is_deleted() {
    let text = clean();
    let json = CleanArgs { format: OutputFormat::Json, ..clean() };
    assert_eq!(clean_step(&text, CleanEvent::Planned(Consent::Ask)), CleanAction::Ask);
    assert_eq!(
        clean_step(&text, CleanEvent::Planned(Consent::Given)),
        CleanAction::Choose(false)
    );
    assert_eq!(clean_step(&text, CleanEvent::Answered(true)), CleanAction::Choose(true));
    assert_eq!(clean_step(&text, CleanEvent::Chosen), CleanAction::Delete);
    assert_eq!(clean_step(&json, CleanEvent::Chosen), CleanAction::Export);
    assert_eq!(clean_step(&json, CleanEvent::Exported(EXIT_SUCCESS)), CleanAction::Delete);
    assert_eq!(
        clean_step(&json, CleanEvent::Exported(EXIT_FAILURE)),
        CleanAction::Exit(EXIT_FAILURE)
    );
    assert_eq!(
        clean_step(&text, CleanEvent::Deleted { is_dry_run: true, code: EXIT_SUCCESS }),
        CleanAction::Exit(EXIT_SUCCESS)
    );
    assert_eq!(
        clean_step(&text, CleanEvent::Deleted { is_dry_run: false, code: EXIT_FAILURE }),
        CleanAction::Record
    );
    assert_eq!(
        clean_step(&text, CleanEvent::Recorded { code: EXIT_FAILURE }),
        CleanAction::Exit(EXIT_FAILURE)
    );
}

#[test]
fn refusals_are_told() {
    assert_eq!(refusal_report(Consent::Ask, false).out, vec!["キャンセルしました。"]);
    assert!(refusal_report(Consent::Ask, true).out.is_empty());
    let told = refusal_report(Consent::CannotAsk, false);
    assert!(told.out.is_empty());
    assert_eq!(told.err.len(), 1);
}

#[test]
fn the_question_names_the_count_and_the_size() {
    assert_eq!(
        confirm_question(3, 2048),
        "3 件（2.0 KB）を完全に削除します。ゴミ箱を経由せず復元できません。続行しますか？ [y/N]: "
    );
}

#[test]
fn scans_are_printed_in_columns() {
    assert_eq!(scan_report(&[]), vec!["対象なし。"]);

    let mut second = entry("/base/b", 10, false);
    second.reason = "なぜなら".to_string();
    second.age_days = None;
    let lines = scan_report(&[entry("/base/a", 2048, true), second]);
    assert_eq!(
        lines,
        vec![
            "[x] user_temp            2.0 KB  経過:3日    推奨   /base/a".to_string(),
            "[ ] user_temp              10 B  経過:不明    -    /base/b".to_string(),
            "      理由: なぜなら".to_string(),
            String::new(),
            "2 件中 1 件を選択中（解放見込み: 2.0 KB）".to_string(),
        ]
    );
    assert_eq!(lines[0], format!(
        "[{}] {:<16} {:>10}  経過:{:<5} {:<4} {}",
        "x", "user_temp", "2.0 KB", "3日", "推奨", "/base/a"
    ));
}

#[test]
fn plans_are_printed_with_their_rules() {
    let args = CleanArgs { dry_run: true, ..clean() };
    let plan = first(&args, &[entry("/base/a", 5, true), entry("/base/b", 6, false)]);
    assert_eq!(
        plan_summary(&plan),
        vec![
            "削除予定: 1 件（5 B）［ドライラン］",
            "内訳（種類別）:",
            "  user_temp        1 件 / 5 B",
            "  user_temp        /base/a",
            "除外: 1 件（選択されていない・許可リスト外・要管理者権限など）",
        ]
    );
}

fn deleted(outcomes: Vec<ItemOutcome>) -> pc_cleaner::DeleteOutcome {
    let entries: Vec<ScanEntry> =
        (0..outcomes.len()).map(|i| entry(&format!("/base/{i}"), 1024, true)).collect();
    let mode = DeleteMode::resolve(&Config::default(), DeleteRequest::execute());
    let plan = pc_cleaner::preview(&FakePlatform, &entries, &rules(), mode);
    execute(plan, &outcomes)
}

#[test]
fn outcomes_are_printed_with_their_failures() {
    let outcome = deleted(vec![
        ItemOutcome::Deleted,
        ItemOutcome::Failed { message: "使用中".to_string() },
    ]);
    let report = outcome_report(&outcome);
    assert_eq!(report.out, vec!["削除完了: 成功 1 件、失敗 1 件、解放 1.0 KB"]);
    assert_eq!(report.err, vec!["  失敗: /base/1 — 使用中"]);
    assert_eq!(report.code, EXIT_FAILURE);
    assert_eq!(exit_code(&outcome), EXIT_FAILURE);
    assert_eq!(exit_code(&deleted(vec![ItemOutcome::Deleted])), EXIT_SUCCESS);
}

#[test]
fn dry_runs_are_printed_as_such() {
    let args = CleanArgs { dry_run: true, ..clean() };
    let outcome = execute(first(&args, &[entry("/base/a", 5, true)]), &Vec::new());
    let report = outcome_report(&outcome);
    assert_eq!(report.out, vec!["ドライランのため削除は行われていません。"]);
    assert!(report.err.is_empty());
    assert_eq!(report.code, EXIT_SUCCESS);
}

#[test]
fn the_history_line_sums_up_all_runs() {
    let mut history = History::default();
    for freed_bytes in [1024, 2048] {
        history.entries.push(HistoryEntry {
            run_id: 0,
            timestamp_secs: 0,
            freed_bytes,
            deleted_count: 1,
            failed_count: 0,
            permanent: false,
        });
    }
    assert_eq!(history_line(&history), "累計解放: 3.0 KB（2回）");
}

#[test]
fn printed_data_is_not_mixed_with_text() {
    let history = History::default();
    let outcome = deleted(vec![ItemOutcome::Failed { message: "使用中".to_string() }]);
    let entries = [entry("/base/a", 5, true)];
    for format in [OutputFormat::Json, OutputFormat::Csv] {
        let args = CleanArgs { format, ..clean() };
        assert!(plan_printout(&args, &first(&args, &entries)).is_empty());
        let report = outcome_printout(&args, &outcome);
        assert!(report.out.is_empty());
        assert!(report.err.is_empty());
        assert_eq!(report.code, EXIT_FAILURE);
        assert!(history_printout(&args, &history).is_empty());
        let to_file = CleanArgs { output: Some("plan.csv".to_string()), ..args };
        assert_eq!(history_printout(&to_file, &history), vec!["累計解放: 0 B（0回）"]);
        let scan = ScopeArgs { all: false, admin: false, format, output: None };
        assert!(scan_printout(&scan, &entries).is_empty());
    }
    let args = clean();
    let plan = first(&args, &entries);
    assert_eq!(plan_printout(&args, &plan), plan_summary(&plan));
    assert_eq!(outcome_printout(&args, &outcome).err, vec!["  失敗: /base/0 — 使用中"]);
    assert_eq!(history_printout(&args, &history), vec!["累計解放: 0 B（0回）"]);
    let scan =
        ScopeArgs { all: false, admin: false, format: OutputFormat::Text, output: None };
    assert_eq!(scan_printout(&scan, &entries), scan_report(&entries));
}

fn record(run_id: u64, at: &str) -> AuditRecord {
    AuditRecord {
        run_id,
        timestamp_secs: 0,
        rule_id: "user_temp".to_string(),
        path: path(at),
        size: 1024,
        action: DeleteAction::ToTrash,
        outcome: ItemOutcome::Deleted,
        method: DeleteMethod::Trash,
    }
}

#[test]
fn logs_show_the_newest_records_oldest_first() {
    let line = audit_line(&record(7, "/a"));
    assert_eq!(
        line,
        format!("[run 7] {:<16} {:>10}  {:<10} {}", "user_temp", "1.0 KB", "削除", "/a")
    );

    let records = vec![record(1, "/a"), record(2, "/b"), record(1, "/c")];
    let all = log_report(&records, &LogArgs { limit: 2, run: None }, "/log");
    assert_eq!(all.len(), 3);
    assert!(all[0].ends_with("/b"));
    assert!(all[1].ends_with("/c"));
    assert_eq!(all[2], "保存先: /log");

    let of_run = log_report(&records, &LogArgs { limit: 20, run: Some(1) }, "/log");
    assert_eq!(of_run.len(), 3);
    assert!(of_run[0].ends_with("/a"));

    let none = log_report(&records, &LogArgs { limit: 20, run: Some(9) }, "/log");
    assert_eq!(none, vec!["記録なし。"]);
}

#[test]
fn exports_end_a_line() {
    assert_eq!(printed_export("{}"), "{}\n");
    assert_eq!(printed_export("a\n"), "a\n");
    assert_eq!(printed_export(""), "\n");
}

#[test]
fn writing_is_reported() {
    let ok = write_report(3, "out.json", &None);
    assert_eq!(ok.out, vec!["3 件を書き出しました: out.json"]);
    assert_eq!(ok.code, EXIT_SUCCESS);
    let failed = write_report(0, "out.json", &Some("denied".to_string()));
    assert_eq!(failed.err, vec!["書き出しに失敗しました（out.json）: denied"]);
    assert_eq!(failed.code, EXIT_FAILURE);
}
