use pc_cleaner::audit::AuditRecord;
use pc_cleaner::path::{FilePath, PathPart};
use pc_cleaner::rule::{builtin_rules, scannable_rules};
use pc_cleaner::view::{
    age_label, audit_rows, bucket_rows, category_rows, duplicate_badge, elevate_confirm_text,
    exclusion_label, future_rules, group_failures, history_rows, large_file_badge, note_for,
    outcome_text, pref_label, reapply_pref_for_rule, recycle_bin_exclusion_hint, relaunch_args,
    safety_label, skip_reason_label, to_exclusion_map, Scope,
};
use pc_cleaner::{
    BucketBreakdown, CategoryBreakdown, Config, DeleteAction, DeleteMethod, DuplicateInfo,
    ExcludedEntry, ExclusionReason, History, HistoryEntry, ItemOutcome, KnownDir, Lang, MatchKind,
    Rule, RulePref, Safety, ScanEntry, SizeBucket, SkipReason,
};

fn path(text: &str) -> FilePath {
    let mut parts = Vec::new();
    if text.starts_with('/') {
        parts.push(PathPart::RootDir);
    }
    for name in text.split('/') {
        if !name.is_empty() {
            parts.push(PathPart::Normal(name.to_string()));
        }
    }
    FilePath { text: text.to_string(), parts }
}

#[test]
fn scope_safeties_matches_cli_safety_scope() {
    assert_eq!(Scope::SafeOnly.safeties(), vec![Safety::Safe]);
    assert_eq!(Scope::All.safeties(), vec![Safety::Safe, Safety::Caution, Safety::Review]);
    assert_eq!(Scope::All.label(Lang::En), "Show all");
}

#[test]
fn safety_label_covers_all_variants() {
    assert_eq!(safety_label(Safety::Safe, Lang::Ja), "安全");
    assert_eq!(safety_label(Safety::Caution, Lang::Ja), "注意");
    assert_eq!(safety_label(Safety::Review, Lang::Ja), "要確認");
}

#[test]
fn safety_label_en_differs_from_ja() {
    let en = safety_label(Safety::Safe, Lang::En);
    assert!(!en.is_empty());
    assert_ne!(en, safety_label(Safety::Safe, Lang::Ja));
}

#[test]
fn pref_labels_name_each_preference() {
    assert_eq!(pref_label(RulePref::AlwaysSelect, Lang::En), "Always select");
    assert_eq!(pref_label(RulePref::Exclude, Lang::Ja), "常に除外");
}

#[test]
fn age_label_formats_known_cases() {
    assert_eq!(age_label(Some(0), Lang::Ja), "本日");
    assert_eq!(age_label(Some(5), Lang::Ja), "5日");
    assert_eq!(age_label(None, Lang::Ja), "不明");
}

#[test]
fn large_file_badge_is_none_without_a_threshold() {
    assert_eq!(large_file_badge(1_000_000_000, None, Lang::Ja), None);
}

#[test]
fn large_file_badge_appears_at_or_above_threshold() {
    assert_eq!(large_file_badge(999, Some(1_000), Lang::Ja), None);
    assert!(large_file_badge(1_000, Some(1_000), Lang::Ja).is_some());
    assert!(large_file_badge(2_000, Some(1_000), Lang::Ja).is_some());
}

#[test]
fn duplicate_badge_is_none_for_primary_or_missing() {
    assert_eq!(duplicate_badge(None, Lang::Ja), None);
    assert_eq!(
        duplicate_badge(
            Some(DuplicateInfo { group_id: 0, group_size: 3, is_primary: true }),
            Lang::Ja
        ),
        None
    );
    assert_eq!(
        duplicate_badge(
            Some(DuplicateInfo { group_id: 0, group_size: 0, is_primary: true }),
            Lang::En
        ),
        None
    );
}

#[test]
fn duplicate_badge_shows_remaining_count_for_non_primary() {
    let badge = duplicate_badge(
        Some(DuplicateInfo { group_id: 0, group_size: 3, is_primary: false }),
        Lang::Ja,
    )
    .unwrap();
    assert!(badge.contains('2'));
}

#[test]
fn future_rules_contains_only_needs_admin_rules_when_not_elevated() {
    let all = builtin_rules(&Config::default());
    let rules = future_rules(&all, false);
    assert!(!rules.is_empty());
    assert!(rules.iter().all(|r| r.needs_admin));
    assert!(rules.iter().any(|r| r.id == "system_temp"));
    assert!(rules.iter().any(|r| r.id == "windows_update_cache"));
    assert!(rules.iter().any(|r| r.id == "delivery_optimization_cache"));
}

#[test]
fn future_rules_is_empty_when_elevated() {
    let all = builtin_rules(&Config::default());
    assert!(future_rules(&all, true).is_empty());
}

#[test]
fn future_rules_and_scannable_rules_are_exact_complements() {
    let config = Config::default();
    let all = builtin_rules(&config);
    for elevated in [false, true] {
        let future = future_rules(&all, elevated);
        let scannable = scannable_rules(&config, elevated);
        assert_eq!(future.len() + scannable.len(), all.len(), "elevated={elevated}");
        for rule in &future {
            assert!(
                !scannable.iter().any(|r| r.id == rule.id),
                "elevated={elevated}: {}",
                rule.id
            );
        }
    }
}

#[test]
fn skip_reason_label_covers_all_variants() {
    for reason in [
        SkipReason::NeedsAdmin,
        SkipReason::UnknownBase,
        SkipReason::Unreadable,
        SkipReason::MissingThreshold,
    ] {
        assert!(!skip_reason_label(&reason, Lang::Ja).is_empty());
    }
}

#[test]
fn exclusion_label_covers_all_variants_except_not_selected() {
    assert_eq!(exclusion_label(ExclusionReason::NotSelected, Lang::Ja), None);
    for reason in [
        ExclusionReason::UnknownRule,
        ExclusionReason::NeedsAdmin,
        ExclusionReason::OutsideRuleBase,
        ExclusionReason::UnresolvedBase,
        ExclusionReason::RequiresPermanent,
    ] {
        assert!(exclusion_label(reason, Lang::Ja).is_some());
    }
}

#[test]
fn notes_are_found_by_place() {
    let excluded = |at: &str, reason: ExclusionReason| ExcludedEntry {
        rule_id: "r".to_string(),
        path: path(at),
        size: 0,
        reason,
    };
    let notes = to_exclusion_map(
        &[
            excluded("/a", ExclusionReason::NotSelected),
            excluded("/b", ExclusionReason::UnknownRule),
            excluded("/b", ExclusionReason::NeedsAdmin),
        ],
        Lang::Ja,
    );
    assert_eq!(notes.len(), 2);
    assert_eq!(note_for(&notes, &path("/a")), None);
    assert_eq!(note_for(&notes, &path("/b")), Some("管理者権限が必要なため対象外"));
}

fn entry(rule_id: &str, selected: bool, recommended: bool) -> ScanEntry {
    ScanEntry {
        rule_id: rule_id.to_string(),
        path: path(&format!("/{rule_id}")),
        size: 0,
        file_count: 1,
        modified: None,
        age_days: None,
        in_use: None,
        duplicate: None,
        recommended,
        reason: String::new(),
        selected,
    }
}

#[test]
fn reapply_pref_for_rule_only_touches_the_target_rule() {
    let mut entries = vec![entry("a", true, true), entry("b", true, true)];
    let mut config = Config::default();
    config.rule_prefs.insert("a".to_string(), RulePref::Exclude);

    reapply_pref_for_rule(&mut entries, "a", &config);

    assert!(!entries[0].selected);
    assert!(entries[1].selected);
}

#[test]
fn group_failures_groups_by_message_and_sorts_by_count_desc() {
    let failures = vec![
        (path("/a"), "使用中".to_string()),
        (path("/b"), "権限不足".to_string()),
        (path("/c"), "使用中".to_string()),
        (path("/d"), "使用中".to_string()),
    ];
    let groups = group_failures(&failures);
    assert_eq!(groups.len(), 2);
    assert_eq!(groups[0].0, "使用中");
    assert_eq!(groups[0].1.len(), 3);
    assert_eq!(groups[1].0, "権限不足");
    assert_eq!(groups[1].1.len(), 1);
}

#[test]
fn group_failures_handles_empty_input() {
    assert!(group_failures(&[]).is_empty());
}

#[test]
fn groups_of_one_size_keep_their_order() {
    let failures = vec![
        (path("/a"), "z".to_string()),
        (path("/b"), "a".to_string()),
        (path("/c"), "a".to_string()),
        (path("/d"), "m".to_string()),
    ];
    let names: Vec<String> = group_failures(&failures).into_iter().map(|g| g.0).collect();
    assert_eq!(names, vec!["a", "z", "m"]);
}

#[test]
fn view_relaunch_args_appends_elevated_marker() {
    let current = vec!["--demo".to_string()];
    assert_eq!(
        relaunch_args(&current),
        vec!["--demo".to_string(), "--elevated".to_string()]
    );
}

#[test]
fn relaunch_args_does_not_duplicate_the_marker() {
    let current = vec!["--elevated".to_string()];
    assert_eq!(relaunch_args(&current), vec!["--elevated".to_string()]);
}

#[test]
fn relaunch_args_handles_empty_input() {
    assert_eq!(relaunch_args(&[]), vec!["--elevated".to_string()]);
}

#[test]
fn elevate_confirm_text_is_non_empty() {
    assert!(!elevate_confirm_text(Lang::Ja).is_empty());
    assert!(!elevate_confirm_text(Lang::En).is_empty());
    assert!(recycle_bin_exclusion_hint(Lang::En).contains("Permanently delete"));
}

fn test_rule(id: &str, label: &str) -> Rule {
    Rule {
        id: id.to_string(),
        label: label.to_string(),
        description: String::new(),
        base: KnownDir::UserTemp,
        match_kind: MatchKind::All,
        needs_admin: false,
        safety: Safety::Safe,
        age_threshold_days: None,
        large_file_threshold_bytes: None,
        is_user_defined: false,
    }
}

fn history_entry(timestamp_secs: u64, freed_bytes: u64, deleted_count: usize) -> HistoryEntry {
    history_entry_with_run_id(0, timestamp_secs, freed_bytes, deleted_count)
}

fn history_entry_with_run_id(
    run_id: u64,
    timestamp_secs: u64,
    freed_bytes: u64,
    deleted_count: usize,
) -> HistoryEntry {
    HistoryEntry {
        run_id,
        timestamp_secs,
        freed_bytes,
        deleted_count,
        failed_count: 0,
        permanent: false,
    }
}

fn audit_record(run_id: u64, timestamp_secs: u64, at: &str) -> AuditRecord {
    AuditRecord {
        run_id,
        timestamp_secs,
        rule_id: "user_temp".to_string(),
        path: path(at),
        size: 1024,
        action: DeleteAction::ToTrash,
        outcome: ItemOutcome::Deleted,
        method: DeleteMethod::Trash,
    }
}

#[test]
fn category_rows_resolves_labels_from_rules() {
    let breakdown = vec![CategoryBreakdown {
        rule_id: "user_temp".to_string(),
        item_count: 3,
        file_count: 10,
        total_size: 50,
    }];
    let rules = vec![test_rule("user_temp", "ユーザー一時ファイル")];

    let rows = category_rows(&breakdown, &rules, 100, Lang::Ja);
    assert_eq!(rows.len(), 1);
    assert_eq!(rows[0].label, "ユーザー一時ファイル");
    assert_eq!(rows[0].detail, "3 件 / 50 B");
    assert!((rows[0].part as f32 / rows[0].whole as f32 - 0.5).abs() < f32::EPSILON);
}

#[test]
fn category_rows_falls_back_to_rule_id_when_rule_unknown() {
    let breakdown = vec![CategoryBreakdown {
        rule_id: "unknown_rule".to_string(),
        item_count: 1,
        file_count: 1,
        total_size: 10,
    }];

    let rows = category_rows(&breakdown, &[], 10, Lang::Ja);
    assert_eq!(rows[0].label, "unknown_rule");
}

#[test]
fn rows_have_zero_fraction_when_total_is_zero() {
    let breakdown = vec![CategoryBreakdown {
        rule_id: "a".to_string(),
        item_count: 0,
        file_count: 0,
        total_size: 0,
    }];
    let rows = category_rows(&breakdown, &[], 0, Lang::Ja);
    assert_eq!((rows[0].part, rows[0].whole), (0, 0));

    let buckets =
        vec![BucketBreakdown { bucket: SizeBucket::UnderMib, item_count: 1, total_size: 0 }];
    let rows = bucket_rows(&buckets, 0, Lang::Ja);
    assert_eq!((rows[0].part, rows[0].whole), (0, 0));
}

#[test]
fn bucket_rows_omit_empty_buckets() {
    let buckets = vec![
        BucketBreakdown { bucket: SizeBucket::UnderMib, item_count: 2, total_size: 20 },
        BucketBreakdown { bucket: SizeBucket::Mib1To10, item_count: 0, total_size: 0 },
    ];
    let rows = bucket_rows(&buckets, 20, Lang::Ja);
    assert_eq!(rows.len(), 1);
    assert_eq!(rows[0].label, "1MB未満");
}

#[test]
fn history_rows_are_newest_first_and_respect_the_limit() {
    let mut history = History::default();
    for i in 0..5u64 {
        history.entries.push(history_entry(i * 1000, 1024 * (i + 1), i as usize + 1));
    }
    let now_secs = 5000;
    let rows = history_rows(&history, now_secs, 2, Lang::Ja);
    assert_eq!(rows.len(), 2);
    assert!(rows[0].summary.contains("5.0 KB"));
    assert!(rows[0].summary.contains("5 件"));
    assert!(rows[1].summary.contains("4.0 KB"));
}

#[test]
fn history_rows_carry_through_the_run_id() {
    let mut history = History::default();
    history.entries.push(history_entry_with_run_id(42, 100, 1024, 1));
    let rows = history_rows(&history, 200, 5, Lang::Ja);
    assert_eq!(rows[0].run_id, 42);
}

#[test]
fn history_rows_handles_empty_history() {
    let history = History::default();
    assert!(history_rows(&history, 1000, 5, Lang::Ja).is_empty());
}

#[test]
fn audit_rows_are_newest_first_and_respect_the_limit() {
    let records = vec![
        audit_record(1, 0, "a.tmp"),
        audit_record(1, 1000, "b.tmp"),
        audit_record(2, 2000, "c.tmp"),
    ];
    let rows = audit_rows(&records, 2000, 2, Lang::Ja);
    assert_eq!(rows.len(), 2);
    assert!(rows[0].path.ends_with("c.tmp"));
    assert!(rows[1].path.ends_with("b.tmp"));
    assert_eq!(rows[0].summary, "user_temp 1.0 KB 削除");
}

#[test]
fn rows_are_worded_in_their_language() {
    const DAY: u64 = 24 * 60 * 60;
    let mut history = History::default();
    history.entries.push(history_entry(0, 1024, 1));
    let rows = history_rows(&history, 3 * DAY, 5, Lang::En);
    assert_eq!(rows[0].when, "3 days ago");
    assert_eq!(rows[0].summary, "1.0 KB freed / 1 items");
    assert_eq!(history_rows(&history, 3 * DAY, 5, Lang::Ja)[0].when, "3日前");
    let records = vec![audit_record(1, 0, "a.tmp")];
    assert_eq!(audit_rows(&records, 10, 5, Lang::En)[0].when, "Today");
    let buckets =
        vec![BucketBreakdown { bucket: SizeBucket::OverGib, item_count: 1, total_size: 20 }];
    assert_eq!(bucket_rows(&buckets, 20, Lang::En)[0].label, "1GB or more");
}

#[test]
fn audit_rows_handles_empty_records() {
    assert!(audit_rows(&[], 1000, 5, Lang::Ja).is_empty());
}

#[test]
fn audit_rows_summary_reflects_outcome() {
    let mut record = audit_record(1, 0, "a.tmp");
    record.outcome = ItemOutcome::Failed { message: "使用中".to_string() };
    let rows = audit_rows(&[record], 0, 5, Lang::Ja);
    assert!(rows[0].summary.contains("失敗"));
    assert!(rows[0].summary.contains("使用中"));
    assert_eq!(outcome_text(&ItemOutcome::NotAttempted, Lang::En), "Not attempted");
}
