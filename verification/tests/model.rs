use pc_cleaner::breakdown::{by_rule, by_size_bucket, GIB, MIB};
use pc_cleaner::config::{
    clamp_days, AGE_THRESHOLD_MAX_DAYS, AGE_THRESHOLD_MIN_DAYS, Config, RulePref,
};
use pc_cleaner::format::{human_size, relative_days, relative_days_in};
use pc_cleaner::history::{entry_from_outcome, push, History, HistoryEntry, MAX_ENTRIES};
use pc_cleaner::path::{FilePath, PathPart};
use pc_cleaner::rule::{builtin_rules, find_rule, scannable_rules, MatchKind, Rule, Safety};
use pc_cleaner::schedule::{ScheduleFrequency, ScheduleSpec};
use pc_cleaner::{BreakdownItem, KnownDir, Lang, ScanEntry, SizeBucket};
use std::collections::HashSet;

fn path(text: &str) -> FilePath {
    let mut parts = Vec::new();
    if text.starts_with('/') {
        parts.push(PathPart::RootDir);
    }
    for name in text.split('/') {
        if !name.is_empty() {
            parts.push(PathPart::Normal(name.to_string()));
        }
    }
    FilePath { text: text.to_string(), parts }
}

// ---- The model as a whole ----

fn assert_send_sync<T: Send + Sync>() {}

#[test]
fn core_model_types_are_send_and_sync() {
    assert_send_sync::<Rule>();
    assert_send_sync::<ScanEntry>();
    assert_send_sync::<Safety>();
    assert_send_sync::<KnownDir>();
}

#[test]
fn rule_and_scan_entry_compose_and_round_trip() {
    let rule = Rule {
        id: "old_logs".to_string(),
        label: "古いログ".to_string(),
        description: "180日超のログファイル".to_string(),
        base: KnownDir::LocalAppData,
        match_kind: MatchKind::Extension(vec!["log".to_string(), "tmp".to_string()]),
        needs_admin: false,
        safety: Safety::Caution,
        age_threshold_days: Some(180),
        large_file_threshold_bytes: None,
        is_user_defined: false,
    };

    let entry = ScanEntry {
        rule_id: rule.id.clone(),
        path: path("/tmp/app/old.log"),
        size: 1024,
        file_count: 1,
        modified: None,
        age_days: Some(200),
        in_use: None,
        duplicate: None,
        recommended: true,
        reason: "180日以上経過".to_string(),
        selected: false,
    };

    let cloned = entry.clone();
    assert_eq!(entry, cloned);

    let extensions: HashSet<&str> = match &rule.match_kind {
        MatchKind::Extension(exts) => exts.iter().map(String::as_str).collect(),
        _ => HashSet::new(),
    };
    assert!(extensions.contains("log"));
}

// ---- Breakdown ----

fn item(rule_id: &str, size: u64) -> BreakdownItem {
    BreakdownItem { rule_id: rule_id.to_string(), size, file_count: 1 }
}

#[test]
fn by_rule_sums_and_sorts_by_size_desc() {
    let items = vec![item("a", 10), item("b", 100), item("a", 20), item("c", 50)];
    let result = by_rule(&items);
    assert_eq!(result.len(), 3);
    assert_eq!(result[0].rule_id, "b");
    assert_eq!(result[0].total_size, 100);
    assert_eq!(result[1].rule_id, "c");
    assert_eq!(result[1].total_size, 50);
    assert_eq!(result[2].rule_id, "a");
    assert_eq!(result[2].total_size, 30);
    assert_eq!(result[2].item_count, 2);
    assert_eq!(result[2].file_count, 2);
}

#[test]
fn by_rule_breaks_ties_by_rule_id() {
    let items = vec![item("z", 10), item("a", 10), item("m", 10)];
    let result = by_rule(&items);
    let ids: Vec<&str> = result.iter().map(|c| c.rule_id.as_str()).collect();
    assert_eq!(ids, vec!["a", "m", "z"]);
}

#[test]
fn by_rule_handles_empty_input() {
    assert!(by_rule(&[]).is_empty());
}

#[test]
fn categories_and_buckets_account_for_everything() {
    let items = vec![
        item("a", 10),
        BreakdownItem { rule_id: "b".to_string(), size: 2 * MIB, file_count: 7 },
        item("a", GIB),
    ];
    let categories = by_rule(&items);
    let buckets = by_size_bucket(&items);
    assert_eq!(categories.iter().map(|c| c.file_count).sum::<u64>(), 9);
    assert_eq!(categories.iter().map(|c| c.item_count).sum::<usize>(), 3);
    assert_eq!(buckets.iter().map(|b| b.item_count).sum::<usize>(), 3);
    let size: u64 = categories.iter().map(|c| c.total_size).sum();
    assert_eq!(size, 10 + 2 * MIB + GIB);
    assert_eq!(buckets.iter().map(|b| b.total_size).sum::<u64>(), size);
}

#[test]
fn by_size_bucket_does_not_count_files() {
    let many =
        BreakdownItem { rule_id: "a".to_string(), size: 1, file_count: u64::MAX };
    let buckets = by_size_bucket(&[many, item("a", 2)]);
    assert_eq!(buckets[0].item_count, 2);
    assert_eq!(buckets[0].total_size, 3);
}

#[test]
fn by_size_bucket_assigns_boundary_values() {
    let items = vec![
        item("r", MIB - 1),
        item("r", MIB),
        item("r", 10 * MIB),
        item("r", 100 * MIB),
        item("r", GIB),
        item("r", GIB - 1),
    ];
    let buckets = by_size_bucket(&items);
    assert_eq!(buckets.len(), 5);
    assert_eq!(buckets[0].bucket, SizeBucket::UnderMib);
    assert_eq!(buckets[0].item_count, 1);
    assert_eq!(buckets[1].bucket, SizeBucket::Mib1To10);
    assert_eq!(buckets[1].item_count, 1);
    assert_eq!(buckets[2].bucket, SizeBucket::Mib10To100);
    assert_eq!(buckets[2].item_count, 1);
    assert_eq!(buckets[3].bucket, SizeBucket::Mib100ToGib);
    assert_eq!(buckets[3].item_count, 2);
    assert_eq!(buckets[4].bucket, SizeBucket::OverGib);
    assert_eq!(buckets[4].item_count, 1);
}

#[test]
fn by_size_bucket_includes_empty_buckets() {
    let items = vec![item("r", 10)];
    let buckets = by_size_bucket(&items);
    assert_eq!(buckets.len(), 5);
    assert_eq!(buckets[0].item_count, 1);
    for bucket in &buckets[1..] {
        assert_eq!(bucket.item_count, 0);
        assert_eq!(bucket.total_size, 0);
    }
}

#[test]
fn bucket_totals_equal_category_totals() {
    let items = vec![
        item("a", 10),
        item("b", MIB + 5),
        item("a", 100 * MIB),
        item("c", GIB + 1),
    ];
    let category_total: u64 = by_rule(&items).iter().map(|c| c.total_size).sum();
    let bucket_total: u64 = by_size_bucket(&items).iter().map(|b| b.total_size).sum();
    assert_eq!(category_total, bucket_total);
    assert_eq!(category_total, 10 + MIB + 5 + 100 * MIB + GIB + 1);
}

#[test]
fn words_follow_the_language() {
    const DAY: u64 = 24 * 60 * 60;
    let ago = |days: u64| relative_days_in(days * DAY, Lang::En);
    assert_eq!(ago(0), "Today");
    assert_eq!(ago(3), "3 days ago");
    assert_eq!(ago(15), "2 weeks ago");
    assert_eq!(ago(65), "2 months ago");
    assert_eq!(ago(800), "2 years ago");
    assert_eq!(relative_days_in(3 * DAY, Lang::Ja), relative_days(3 * DAY));
    let labels: Vec<&str> = SizeBucket::all().iter().map(|b| b.label_in(Lang::En)).collect();
    assert_eq!(
        labels,
        vec!["Under 1MB", "1MB to 10MB", "10MB to 100MB", "100MB to 1GB", "1GB or more"]
    );
    assert_eq!(SizeBucket::UnderMib.label_in(Lang::Ja), "1MB未満");

    let ja = builtin_rules(&Config::default());
    let en = builtin_rules(&Config { lang: Lang::En, ..Config::default() });
    assert_eq!(ja.len(), en.len());
    for (a, b) in ja.iter().zip(&en) {
        assert!(b.label.is_ascii() && b.description.is_ascii());
        let worded =
            Rule { label: a.label.clone(), description: a.description.clone(), ..b.clone() };
        assert_eq!(*a, worded);
    }
    assert_eq!(ja[4].label, "古いログ（180日超）");
    assert_eq!(en[4].label, "Old logs (over 180 days)");
}

#[test]
fn size_bucket_labels_follow_the_order_of_sizes() {
    let labels: Vec<&str> = SizeBucket::all().iter().map(|b| b.label()).collect();
    assert_eq!(labels, vec!["1MB未満", "1MB〜10MB", "10MB〜100MB", "100MB〜1GB", "1GB以上"]);
    assert_eq!(SizeBucket::for_size(0), SizeBucket::UnderMib);
    assert_eq!(SizeBucket::for_size(u64::MAX), SizeBucket::OverGib);
}

// ---- Settings ----

#[test]
fn default_config_uses_trash_and_dry_run() {
    let config = Config::default();
    assert!(config.use_trash);
    assert!(config.dry_run_default);
    assert!(config.rule_prefs.is_empty());
    assert!(config.age_thresholds.is_empty());
    assert_eq!(config.large_file_threshold_bytes, 1_073_741_824);
    assert!(!config.detect_duplicates);
}

#[test]
fn default_rule_pref_is_ask_each_time() {
    assert_eq!(RulePref::default(), RulePref::AskEachTime);
}

#[test]
fn age_threshold_days_falls_back_to_default_when_unset() {
    let config = Config::default();
    assert_eq!(config.age_threshold_days("old_logs", 180), 180);
}

#[test]
fn age_threshold_days_uses_configured_override() {
    let mut config = Config::default();
    config.age_thresholds.insert("old_logs".to_string(), 30);
    assert_eq!(config.age_threshold_days("old_logs", 180), 30);
}

#[test]
fn age_threshold_days_clamps_to_the_safe_range() {
    let mut config = Config::default();
    config.age_thresholds.insert("too_low".to_string(), 0);
    config.age_thresholds.insert("too_high".to_string(), 99999);

    assert_eq!(config.age_threshold_days("too_low", 180), AGE_THRESHOLD_MIN_DAYS);
    assert_eq!(config.age_threshold_days("too_high", 180), AGE_THRESHOLD_MAX_DAYS);
}

#[test]
fn clamp_days_keeps_what_is_in_range() {
    assert_eq!(clamp_days(0), 1);
    assert_eq!(clamp_days(1), 1);
    assert_eq!(clamp_days(42), 42);
    assert_eq!(clamp_days(3650), 3650);
    assert_eq!(clamp_days(3651), 3650);
}

#[test]
fn prefs_are_looked_up_by_rule_id() {
    let mut config = Config::default();
    config.rule_prefs.insert("a".to_string(), RulePref::Exclude);
    config.rule_prefs.insert("b".to_string(), RulePref::AlwaysSelect);
    config.rule_prefs.insert("a".to_string(), RulePref::AlwaysSelect);
    assert_eq!(config.rule_pref("a"), RulePref::AlwaysSelect);
    assert_eq!(config.rule_pref("c"), RulePref::AskEachTime);
    config.rule_prefs.remove("a");
    assert_eq!(config.rule_pref("a"), RulePref::AskEachTime);
    assert_eq!(config.rule_pref("b"), RulePref::AlwaysSelect);
}

// ---- Formatting ----

#[test]
fn human_size_formats_common_magnitudes() {
    assert_eq!(human_size(0), "0 B");
    assert_eq!(human_size(999), "999 B");
    assert_eq!(human_size(1024), "1.0 KB");
    assert_eq!(human_size(1536), "1.5 KB");
    assert_eq!(human_size(1024 * 1024 * 1024), "1.0 GB");
}

#[test]
fn human_size_agrees_with_floating_point_division() {
    let samples: [u64; 14] = [
        1023,
        1025,
        1126,
        1228,
        1_048_575,
        1_048_576,
        1_101_004,
        123_456_789,
        1_073_741_823,
        1_099_511_627_776,
        1_125_899_906_842_624,
        9_007_199_254_740_993,
        u64::MAX - 1024,
        u64::MAX,
    ];
    for bytes in samples {
        let units = ["B", "KB", "MB", "GB", "TB"];
        let mut size = bytes as f64;
        let mut unit = 0;
        while size >= 1024.0 && unit < units.len() - 1 {
            size /= 1024.0;
            unit += 1;
        }
        let expected = if unit == 0 {
            format!("{bytes} B")
        } else {
            format!("{size:.1} {}", units[unit])
        };
        assert_eq!(human_size(bytes), expected, "bytes={bytes}");
    }
}

#[test]
fn relative_days_formats_common_cases() {
    const DAY: u64 = 24 * 60 * 60;
    assert_eq!(relative_days(0), "本日");
    assert_eq!(relative_days(DAY - 1), "本日");
    assert_eq!(relative_days(DAY), "1日前");
    assert_eq!(relative_days(3 * DAY), "3日前");
    assert_eq!(relative_days(10 * DAY), "1週間前");
    assert_eq!(relative_days(45 * DAY), "1か月前");
    assert_eq!(relative_days(400 * DAY), "1年前");
}

// ---- History ----

fn sample_entry() -> HistoryEntry {
    HistoryEntry {
        timestamp_secs: 1_700_000_000,
        freed_bytes: 1024,
        deleted_count: 3,
        failed_count: 1,
        permanent: false,
        run_id: 0,
    }
}

#[test]
fn total_freed_bytes_sums_all_entries() {
    let mut history = History::default();
    push(&mut history, sample_entry());
    push(&mut history, HistoryEntry { freed_bytes: 2048, ..sample_entry() });
    assert_eq!(history.total_freed_bytes(), 1024 + 2048);
    assert_eq!(history.run_count(), 2);
}

#[test]
fn push_caps_at_max_entries_and_keeps_the_newest() {
    let mut history = History::default();
    for i in 0..(MAX_ENTRIES + 5) {
        push(&mut history, HistoryEntry { timestamp_secs: i as u64, ..sample_entry() });
    }
    assert_eq!(history.entries.len(), MAX_ENTRIES);
    assert_eq!(history.entries.first().unwrap().timestamp_secs, 5);
    assert_eq!(history.entries.last().unwrap().timestamp_secs, (MAX_ENTRIES + 4) as u64);
}

#[test]
fn recent_returns_newest_first_and_respects_limit() {
    let mut history = History::default();
    for i in 0..5u64 {
        push(&mut history, HistoryEntry { timestamp_secs: i, ..sample_entry() });
    }
    let recent = history.recent(2);
    assert_eq!(recent.len(), 2);
    assert_eq!(recent[0].timestamp_secs, 4);
    assert_eq!(recent[1].timestamp_secs, 3);
}

#[test]
fn freed_bytes_that_overflow_are_not_countable() {
    let mut history = History::default();
    push(&mut history, HistoryEntry { freed_bytes: u64::MAX, ..sample_entry() });
    assert!(history.is_countable());
    push(&mut history, HistoryEntry { freed_bytes: 1, ..sample_entry() });
    assert!(!history.is_countable());
}

// ---- Rules ----

#[test]
fn safety_ordered_by_risk_ascending() {
    assert!(Safety::Safe < Safety::Caution);
    assert!(Safety::Caution < Safety::Review);
    assert!(Safety::Safe.is_safer_than(Safety::Review));
    assert!(!Safety::Review.is_safer_than(Safety::Review));
}

#[test]
fn builtin_rules_have_stable_unique_ids() {
    let rules = builtin_rules(&Config::default());
    let ids: HashSet<&str> = rules.iter().map(|r| r.id.as_str()).collect();
    let expected: HashSet<&str> = [
        "user_temp",
        "browser_cache",
        "thumbnail_cache",
        "recycle_bin",
        "old_logs",
        "old_downloads",
        "system_temp",
        "windows_update_cache",
        "delivery_optimization_cache",
    ]
    .into_iter()
    .collect();
    assert_eq!(ids, expected);
    assert_eq!(rules.len(), expected.len());
}

#[test]
fn every_rule_has_non_empty_id_label_description() {
    for rule in builtin_rules(&Config::default()) {
        assert!(!rule.id.is_empty());
        assert!(!rule.label.is_empty());
        assert!(!rule.description.is_empty());
    }
}

#[test]
fn builtin_rules_cover_all_safety_levels() {
    let rules = builtin_rules(&Config::default());
    assert!(rules.iter().any(|r| r.safety == Safety::Safe));
    assert!(rules.iter().any(|r| r.safety == Safety::Caution));
    assert!(rules.iter().any(|r| r.safety == Safety::Review));
}

#[test]
fn needs_admin_rules_are_excluded_unless_elevated() {
    let config = Config::default();
    let rules = builtin_rules(&config);
    let mut admin_ids: Vec<&str> =
        rules.iter().filter(|r| r.needs_admin).map(|r| r.id.as_str()).collect();
    admin_ids.sort_unstable();
    assert_eq!(
        admin_ids,
        vec!["delivery_optimization_cache", "system_temp", "windows_update_cache"]
    );

    let not_elevated = scannable_rules(&config, false);
    assert_eq!(not_elevated.len(), rules.len() - admin_ids.len());
    assert!(not_elevated.iter().all(|r| !admin_ids.contains(&r.id.as_str())));

    let elevated = scannable_rules(&config, true);
    assert_eq!(elevated.len(), rules.len());
    for id in &admin_ids {
        assert!(elevated.iter().any(|r| &r.id == id));
    }
}

#[test]
fn admin_rules_are_all_review() {
    for rule in builtin_rules(&Config::default()).into_iter().filter(|r| r.needs_admin) {
        assert_eq!(rule.safety, Safety::Review, "id={}", rule.id);
    }
}

fn rule_with(needs_admin: bool, safety: Safety) -> Rule {
    Rule {
        id: "test_rule".to_string(),
        label: "テストルール".to_string(),
        description: "テスト用".to_string(),
        base: KnownDir::UserTemp,
        match_kind: MatchKind::All,
        needs_admin,
        safety,
        age_threshold_days: None,
        large_file_threshold_bytes: None,
        is_user_defined: false,
    }
}

#[test]
fn is_permitted_truth_table() {
    let admin_rule = rule_with(true, Safety::Review);
    let normal_rule = rule_with(false, Safety::Safe);

    assert!(!admin_rule.is_permitted(false));
    assert!(admin_rule.is_permitted(true));
    assert!(normal_rule.is_permitted(false));
    assert!(normal_rule.is_permitted(true));
}

#[test]
fn may_touch_admin_area_truth_table() {
    let admin_rule = rule_with(true, Safety::Review);
    let normal_rule = rule_with(false, Safety::Safe);

    assert!(!admin_rule.may_touch_admin_area(false));
    assert!(admin_rule.may_touch_admin_area(true));
    assert!(!normal_rule.may_touch_admin_area(false));
    assert!(!normal_rule.may_touch_admin_area(true));
}

#[test]
fn system_temp_stays_review() {
    let rules = builtin_rules(&Config::default());
    let system_temp = rules.iter().find(|r| r.id == "system_temp").unwrap();
    assert_eq!(system_temp.safety, Safety::Review);
}

#[test]
fn age_thresholds_match_the_specification() {
    for rule in builtin_rules(&Config::default()) {
        let expected = match rule.id.as_str() {
            "old_logs" => Some(180),
            "old_downloads" => Some(90),
            _ => None,
        };
        assert_eq!(rule.age_threshold_days, expected, "id={}", rule.id);
    }
}

#[test]
fn rule_text_does_not_contain_a_raw_windows_path() {
    for rule in builtin_rules(&Config::default()) {
        assert!(!rule.label.contains(':'), "id={}", rule.id);
        assert!(!rule.label.contains('\\'), "id={}", rule.id);
        assert!(!rule.description.contains(':'), "id={}", rule.id);
        assert!(!rule.description.contains('\\'), "id={}", rule.id);
    }
}

#[test]
fn large_file_threshold_bytes_is_populated_from_config() {
    let config = Config { large_file_threshold_bytes: 12_345, ..Config::default() };
    let rules = builtin_rules(&config);

    let with_threshold = ["user_temp", "browser_cache", "old_logs", "old_downloads"];
    for id in with_threshold {
        let rule = rules.iter().find(|r| r.id == id).unwrap();
        assert_eq!(rule.large_file_threshold_bytes, Some(12_345), "id={id}");
    }
}

#[test]
fn thresholds_in_the_settings_show_in_labels() {
    let mut config = Config::default();
    config.age_thresholds.insert("old_logs".to_string(), 30);
    let rules = builtin_rules(&config);
    let logs = find_rule(&rules, "old_logs").unwrap();
    assert_eq!(logs.label, "古いログ（30日超）");
    assert_eq!(logs.age_threshold_days, Some(30));
    assert!(find_rule(&rules, "no_such_rule").is_none());
}

// ---- Schedules ----

#[test]
fn start_time_is_zero_padded() {
    let spec = ScheduleSpec { frequency: ScheduleFrequency::Daily, hour: 3, minute: 5 };
    assert_eq!(spec.start_time(), "03:05");
}

#[test]
fn start_time_handles_double_digit_values() {
    let spec = ScheduleSpec { frequency: ScheduleFrequency::Weekly, hour: 23, minute: 59 };
    assert_eq!(spec.start_time(), "23:59");
}

// ---- Runs that leave no record ----

#[test]
fn a_run_without_items_leaves_no_record() {
    let outcome = pc_cleaner::DeleteOutcome {
        mode: pc_cleaner::DeleteMode::resolve(
            &Config { dry_run_default: false, ..Config::default() },
            pc_cleaner::DeleteRequest::from_config(),
        ),
        results: Vec::new(),
        excluded: Vec::new(),
    };
    assert_eq!(entry_from_outcome(&outcome, 42, 7), None);
}
