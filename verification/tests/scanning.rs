use pc_cleaner::inspect::{
    annotate_duplicates, annotate_in_use, entries_to_hash, hash_file, set_in_use, MAX_HASH_BYTES,
};
use pc_cleaner::path::{FilePath, PathPart};
use pc_cleaner::platform::{
    ElevateError, ElevateResult, KnownDir, Platform, PlatformError, RestoreItemOutcome, TrashEntry,
};
use pc_cleaner::rule::scannable_rules;
use pc_cleaner::scan::{
    age_days_between, aggregate_dir, apply_rule_prefs, entries_are_countable,
    listing_is_countable, listings_are_countable, matches_extension, report_progress,
    resolve_target, resolve_targets, rules_for_safeties, safety_scope, scan, scan_if_countable,
    scan_pipeline, scan_pipeline_with_progress, scan_with_progress, sort_by_path, walk_all,
    walk_files, DirItem, FileInfo, ScanProgress, SkipReason, MAX_DEPTH, NANOS_PER_DAY,
    PROGRESS_FILE_INTERVAL,
};
use pc_cleaner::{Config, DuplicateInfo, Lang, MatchKind, Rule, RulePref, Safety, ScanEntry};
use std::collections::{HashMap, HashSet};

const NANOS_PER_SEC: i128 = 1_000_000_000;
const NOW: i128 = 1_700_000_000 * NANOS_PER_SEC;

fn path(text: &str) -> FilePath {
    let mut parts = Vec::new();
    if text.starts_with('/') {
        parts.push(PathPart::RootDir);
    }
    for name in text.split('/') {
        if !name.is_empty() {
            parts.push(PathPart::Normal(name.to_string()));
        }
    }
    FilePath { text: text.to_string(), parts }
}

fn file(at: &str, size: u64, age_days: i128) -> DirItem {
    DirItem::File(FileInfo {
        path: path(at),
        size,
        modified: Some(NOW - age_days * NANOS_PER_DAY - 3600 * NANOS_PER_SEC),
    })
}

fn dir(at: &str, items: Vec<DirItem>) -> DirItem {
    DirItem::Dir { path: path(at), items }
}

struct FakePlatform {
    dirs: HashMap<KnownDir, FilePath>,
    elevated: bool,
    admin_paths: HashSet<String>,
    in_use: HashSet<String>,
}

impl FakePlatform {
    fn new() -> Self {
        FakePlatform {
            dirs: HashMap::new(),
            elevated: false,
            admin_paths: HashSet::new(),
            in_use: HashSet::new(),
        }
    }

    fn with(mut self, kind: KnownDir, at: &str) -> Self {
        self.dirs.insert(kind, path(at));
        self
    }

    fn elevated(mut self) -> Self {
        self.elevated = true;
        self
    }

    fn admin_path(mut self, at: &str) -> Self {
        self.admin_paths.insert(at.to_string());
        self
    }

    fn held_open(mut self, at: &str) -> Self {
        self.in_use.insert(at.to_string());
        self
    }
}

impl Platform for FakePlatform {
    fn known_dir(&self, kind: KnownDir) -> Option<FilePath> {
        self.dirs.get(&kind).cloned()
    }
    fn to_trash(&self, _path: &FilePath) -> Result<(), PlatformError> {
        Err(PlatformError::Unsupported("to_trash"))
    }
    fn requires_admin(&self, path: &FilePath) -> bool {
        self.admin_paths.contains(&path.text)
    }
    fn config_dir(&self) -> Option<FilePath> {
        None
    }
    fn is_elevated(&self) -> bool {
        self.elevated
    }
    fn elevate(&self, _args: &[String]) -> ElevateResult {
        Err(ElevateError::Unsupported)
    }
    fn is_file_in_use(&self, path: &FilePath) -> Option<bool> {
        Some(self.in_use.contains(&path.text))
    }
    fn list_trash(&self) -> Result<Vec<TrashEntry>, PlatformError> {
        Err(PlatformError::Unsupported("list_trash"))
    }
    fn restore_from_trash(&self, _ids: &[String]) -> Vec<(String, RestoreItemOutcome)> {
        Vec::new()
    }
}

fn test_rule(
    id: &str,
    base: KnownDir,
    match_kind: MatchKind,
    safety: Safety,
    needs_admin: bool,
    age_threshold_days: Option<u64>,
) -> Rule {
    Rule {
        id: id.to_string(),
        label: id.to_string(),
        description: "test".to_string(),
        base,
        match_kind,
        needs_admin,
        safety,
        age_threshold_days,
        large_file_threshold_bytes: None,
        is_user_defined: false,
    }
}

fn user_temp() -> Rule {
    test_rule("user_temp", KnownDir::UserTemp, MatchKind::All, Safety::Safe, false, None)
}

fn old_logs() -> Rule {
    test_rule(
        "old_logs",
        KnownDir::LocalAppData,
        MatchKind::Extension(vec!["log".to_string()]),
        Safety::Caution,
        false,
        Some(180),
    )
}

fn old_downloads(threshold: Option<u64>) -> Rule {
    test_rule(
        "old_downloads",
        KnownDir::Downloads,
        MatchKind::OlderThan,
        Safety::Review,
        false,
        threshold,
    )
}

// ---- Pure parts ----

#[test]
fn age_days_between_floors_to_whole_days() {
    let now = 1_000_000 * NANOS_PER_SEC;
    assert_eq!(age_days_between(now, now), 0);
    assert_eq!(age_days_between(now - 86_399 * NANOS_PER_SEC, now), 0);
    assert_eq!(age_days_between(now - 86_400 * NANOS_PER_SEC, now), 1);
    assert_eq!(age_days_between(now - 365 * 86_400 * NANOS_PER_SEC, now), 365);
    assert_eq!(age_days_between(now + 86_400 * NANOS_PER_SEC, now), 0);
}

#[test]
fn matches_extension_is_case_insensitive() {
    let exts = vec!["log".to_string()];
    assert!(matches_extension(&path("a.LOG"), &exts));
    assert!(matches_extension(&path("a.log"), &exts));
    assert!(!matches_extension(&path("a.txt"), &exts));
    assert!(!matches_extension(&path(".gitignore"), &exts));
    assert!(!matches_extension(&path("noext"), &exts));
    assert!(matches_extension(&path("a.tar.gz"), &vec!["gz".to_string()]));
}

#[test]
fn rules_for_safeties_excludes_needs_admin_and_filters_by_safety() {
    let config = Config::default();
    let safe_only = rules_for_safeties(&[Safety::Safe], &config, false);
    assert!(safe_only.iter().all(|r| r.safety == Safety::Safe));
    assert!(safe_only.iter().all(|r| !r.needs_admin));
    assert!(!safe_only.is_empty());

    let all =
        rules_for_safeties(&[Safety::Safe, Safety::Caution, Safety::Review], &config, false);
    assert!(all.iter().all(|r| !r.needs_admin));
    assert!(all.iter().any(|r| r.id == "old_downloads"));
}

#[test]
fn rules_for_safeties_includes_needs_admin_when_elevated() {
    let config = Config::default();
    let not_elevated = rules_for_safeties(&[Safety::Review], &config, false);
    assert!(!not_elevated.iter().any(|r| r.id == "system_temp"));

    let elevated = rules_for_safeties(&[Safety::Review], &config, true);
    assert!(elevated.iter().any(|r| r.id == "system_temp"));
}

#[test]
fn safety_scope_matches_flow_one_and_flow_two() {
    assert_eq!(safety_scope(false), vec![Safety::Safe]);
    assert_eq!(safety_scope(true), vec![Safety::Safe, Safety::Caution, Safety::Review]);
}

fn assert_send<T: Send>() {}

#[test]
fn scan_progress_and_scan_target_are_send() {
    assert_send::<ScanProgress>();
    assert_send::<SkipReason>();
}

#[test]
fn progress_is_reported_at_intervals() {
    assert!(report_progress("r", PROGRESS_FILE_INTERVAL, 10).is_some());
    assert!(report_progress("r", PROGRESS_FILE_INTERVAL + 1, 10).is_none());
    assert_eq!(
        report_progress("r", PROGRESS_FILE_INTERVAL * 2, 10),
        Some(ScanProgress::Walking {
            rule_id: "r".to_string(),
            files_scanned: PROGRESS_FILE_INTERVAL * 2,
            bytes_scanned: 10,
        })
    );
}

#[test]
fn links_are_never_followed_and_depth_is_limited() {
    let items = vec![
        DirItem::Symlink { path: path("/b/link"), size: 7 },
        dir("/b/d", vec![file("/b/d/x", 2, 3), file("/b/d/y", 5, 1)]),
        file("/b/z", 1, 2),
    ];
    let files = walk_files(&items);
    assert_eq!(files.len(), 3);
    assert!(files.iter().all(|f| f.path.text != "/b/link"));

    let (size, count, modified) = aggregate_dir(&items);
    assert_eq!(size, 8);
    assert_eq!(count, 3);
    assert_eq!(modified, Some(NOW - NANOS_PER_DAY - 3600 * NANOS_PER_SEC));

    let mut nested = vec![file("/deep", 1, 1)];
    for _ in 0..MAX_DEPTH + 1 {
        nested = vec![dir("/d", nested)];
    }
    assert!(walk_files(&nested).is_empty());
}

#[test]
fn entries_are_sorted_by_path() {
    let entries: Vec<ScanEntry> =
        ["/b/z", "/b/a/q", "/b", "/b/a"].iter().map(|p| entry(p, 1, 1, None)).collect();
    let sorted: Vec<String> =
        sort_by_path(&entries).iter().map(|e| e.path.text.clone()).collect();
    assert_eq!(sorted, vec!["/b", "/b/a", "/b/a/q", "/b/z"]);
}

#[test]
fn sizes_that_overflow_are_not_countable() {
    let items = vec![file("/b/x", u64::MAX, 1), file("/b/y", 1, 1)];
    assert!(!listing_is_countable(&user_temp(), &items));
    assert!(listing_is_countable(&user_temp(), &vec![file("/b/x", u64::MAX, 1)]));

    let platform = FakePlatform::new().with(KnownDir::UserTemp, "/b");
    let rules = vec![user_temp()];
    assert!(scan_if_countable(&platform, &rules, Lang::Ja, &vec![items], NOW).is_none());
    let (targets, _) = resolve_targets(&platform, &rules);
    assert!(listings_are_countable(&targets, &Vec::new()));
    assert!(entries_are_countable(&Vec::new()));
}

// ---- Scanning what is listed ----

#[test]
fn scan_all_aggregates_top_level_children_and_excludes_empty_dirs() {
    let platform = FakePlatform::new().with(KnownDir::UserTemp, "/t");
    let listing = vec![
        file("/t/top.txt", 5, 10),
        dir("/t/sub", vec![file("/t/sub/a.txt", 5, 10), file("/t/sub/b.txt", 10, 5)]),
        dir("/t/empty", Vec::new()),
    ];
    let rule = test_rule("t", KnownDir::UserTemp, MatchKind::All, Safety::Safe, false, None);
    let entries = scan(&platform, &[rule], Lang::Ja, &vec![listing], NOW);

    assert_eq!(entries.len(), 2);
    let top = entries.iter().find(|e| e.path == path("/t/top.txt")).unwrap();
    assert_eq!(top.size, 5);
    assert_eq!(top.file_count, 1);
    let sub = entries.iter().find(|e| e.path == path("/t/sub")).unwrap();
    assert_eq!(sub.size, 15);
    assert_eq!(sub.file_count, 2);
    assert_eq!(sub.age_days, Some(5));
}

#[test]
fn scan_extension_matches_individual_files_only() {
    let platform = FakePlatform::new().with(KnownDir::LocalAppData, "/l");
    let listing = vec![dir(
        "/l/deep",
        vec![file("/l/deep/x.log", 3, 200), file("/l/deep/y.txt", 3, 200)],
    )];
    let entries = scan(&platform, &[old_logs()], Lang::Ja, &vec![listing], NOW);

    assert_eq!(entries.len(), 1);
    assert_eq!(entries[0].path, path("/l/deep/x.log"));
    assert_eq!(entries[0].file_count, 1);
    assert!(entries[0].recommended);
}

#[test]
fn scan_older_than_respects_threshold_boundary() {
    let platform = FakePlatform::new().with(KnownDir::Downloads, "/d");
    let listing = vec![file("/d/old.bin", 1, 90), file("/d/new.bin", 1, 89)];
    let entries = scan(&platform, &[old_downloads(Some(90))], Lang::Ja, &vec![listing], NOW);

    assert_eq!(entries.len(), 1);
    assert_eq!(entries[0].path, path("/d/old.bin"));
    assert!(!entries[0].recommended);
}

#[test]
fn older_than_uses_the_configured_threshold() {
    let mut config = Config::default();
    config.age_thresholds.insert("old_downloads".to_string(), 30);
    let rules = scannable_rules(&config, false);
    let rule = rules.into_iter().find(|r| r.id == "old_downloads").unwrap();
    assert_eq!(rule.age_threshold_days, Some(30));

    let platform = FakePlatform::new().with(KnownDir::Downloads, "/d");
    let listing = vec![file("/d/old.bin", 1, 40), file("/d/new.bin", 1, 20)];
    let entries = scan(&platform, &[rule], Lang::Ja, &vec![listing], NOW);
    assert_eq!(entries.len(), 1);
    assert_eq!(entries[0].path, path("/d/old.bin"));
}

fn system_temp() -> Rule {
    test_rule("system_temp", KnownDir::SystemTemp, MatchKind::All, Safety::Review, true, None)
}

#[test]
fn scan_excludes_needs_admin_rules() {
    let platform = FakePlatform::new().with(KnownDir::SystemTemp, "/s");
    let listing = vec![file("/s/a.tmp", 1, 10)];
    assert!(scan(&platform, &[system_temp()], Lang::Ja, &vec![listing], NOW).is_empty());
}

#[test]
fn scan_includes_needs_admin_rules_when_elevated() {
    let platform = FakePlatform::new().with(KnownDir::SystemTemp, "/s").elevated();
    let listing = vec![file("/s/a.tmp", 1, 10)];
    let entries = scan(&platform, &[system_temp()], Lang::Ja, &vec![listing], NOW);
    assert_eq!(entries.len(), 1);
}

#[test]
fn admin_base_is_still_excluded_for_non_admin_rule_when_elevated() {
    let platform =
        FakePlatform::new().with(KnownDir::UserTemp, "/base").admin_path("/base").elevated();
    let listing = vec![file("/base/a.tmp", 1, 10)];
    assert!(scan(&platform, &[user_temp()], Lang::Ja, &vec![listing], NOW).is_empty());
    assert_eq!(resolve_target(&platform, &user_temp()).err(), Some(SkipReason::NeedsAdmin));
}

#[test]
fn scan_skips_rule_when_known_dir_is_none() {
    let platform = FakePlatform::new();
    assert!(scan(&platform, &[user_temp()], Lang::Ja, &Vec::new(), NOW).is_empty());
}

#[test]
fn scan_skips_unreadable_base_without_panicking() {
    let platform = FakePlatform::new().with(KnownDir::UserTemp, "/does-not-exist");
    assert!(scan(&platform, &[user_temp()], Lang::Ja, &Vec::new(), NOW).is_empty());
}

#[test]
fn scan_older_than_without_threshold_skips_the_rule() {
    let platform = FakePlatform::new().with(KnownDir::Downloads, "/d");
    let listing = vec![file("/d/a.bin", 1, 9999)];
    assert!(scan(&platform, &[old_downloads(None)], Lang::Ja, &vec![listing], NOW).is_empty());
}

#[test]
fn all_entries_are_under_the_resolved_base() {
    let platform = FakePlatform::new().with(KnownDir::LocalAppData, "/l");
    let listing =
        vec![file("/l/a.log", 1, 200), dir("/l/sub", vec![file("/l/sub/b.log", 1, 200)])];
    let entries = scan(&platform, &[old_logs()], Lang::Ja, &vec![listing], NOW);
    assert_eq!(entries.len(), 2);
    for entry in &entries {
        assert!(entry.path.starts_with(&path("/l")));
    }
}

#[test]
fn scan_with_progress_reports_started_and_finished_and_preserves_rule_order() {
    let platform =
        FakePlatform::new().with(KnownDir::UserTemp, "/a").with(KnownDir::Downloads, "/b");
    let rules = vec![user_temp(), old_downloads(Some(1))];
    let listings = vec![vec![file("/a/a.txt", 1, 10)], vec![file("/b/b.txt", 1, 10)]];

    let (entries, events) = scan_with_progress(&platform, &rules, Lang::Ja, &listings, NOW);

    assert_eq!(entries.len(), 2);
    assert_eq!(
        entries.iter().map(|e| e.rule_id.as_str()).collect::<Vec<_>>(),
        vec!["user_temp", "old_downloads"]
    );
    assert!(matches!(events.first(), Some(ScanProgress::Started { total_rules: 2 })));
    assert!(matches!(events.last(), Some(ScanProgress::Finished { entries: 2, .. })));
    assert_eq!(
        events.iter().filter(|e| matches!(e, ScanProgress::RuleFinished { .. })).count(),
        2
    );
}

#[test]
fn scan_reports_skipped_rules_with_reasons() {
    let platform = FakePlatform::new();
    let rules = vec![system_temp(), user_temp()];
    let (_, events) = scan_with_progress(&platform, &rules, Lang::Ja, &Vec::new(), NOW);

    assert!(events.iter().any(|e| matches!(
        e,
        ScanProgress::RuleSkipped { rule_id, reason: SkipReason::NeedsAdmin }
            if rule_id == "system_temp"
    )));
    assert!(events.iter().any(|e| matches!(
        e,
        ScanProgress::RuleSkipped { rule_id, reason: SkipReason::UnknownBase }
            if rule_id == "user_temp"
    )));
}

#[test]
fn a_link_below_a_base_counts_for_itself() {
    let items = vec![DirItem::Symlink { path: path("/t/link"), size: 9 }];
    let (entries, _) = walk_all(&items, "user_temp", NOW);
    assert_eq!(entries.len(), 1);
    assert_eq!(entries[0].size, 9);
    assert_eq!(entries[0].file_count, 1);
}

#[test]
fn a_file_that_is_held_open_is_not_recommended() {
    let platform = FakePlatform::new().with(KnownDir::UserTemp, "/t").held_open("/t/a");
    let listing = vec![file("/t/a", 1, 10), file("/t/b", 1, 10)];
    let entries = scan(&platform, &[user_temp()], Lang::Ja, &vec![listing], NOW);
    assert_eq!(entries[0].in_use, Some(true));
    assert!(!entries[0].recommended);
    assert_eq!(entries[1].in_use, Some(false));
    assert!(entries[1].recommended);
    assert!(entries[1].selected);
}

#[test]
fn apply_rule_prefs_respects_always_select_and_exclude() {
    let mut entries = vec![entry("/a", 0, 1, None), entry("/b", 0, 1, None), entry("/c", 0, 1, None)];
    entries[0].rule_id = "a".to_string();
    entries[1].rule_id = "b".to_string();
    entries[1].recommended = true;
    entries[1].selected = true;
    entries[2].rule_id = "c".to_string();
    entries[2].recommended = true;
    entries[2].selected = true;

    let mut config = Config::default();
    config.rule_prefs.insert("a".to_string(), RulePref::AlwaysSelect);
    config.rule_prefs.insert("b".to_string(), RulePref::Exclude);

    apply_rule_prefs(&mut entries, &config);

    assert!(entries[0].selected);
    assert!(!entries[1].selected);
    assert!(entries[2].selected);
}

// ---- Looking closer ----

fn entry(at: &str, size: u64, file_count: u64, age_days: Option<u64>) -> ScanEntry {
    ScanEntry {
        rule_id: "test".to_string(),
        path: path(at),
        size,
        file_count,
        modified: None,
        age_days,
        in_use: None,
        duplicate: None,
        recommended: false,
        reason: String::new(),
        selected: false,
    }
}

#[test]
fn annotate_in_use_skips_aggregated_directory_entries() {
    let platform = FakePlatform::new();
    let mut entries = vec![entry("/some/dir", 100, 3, Some(0))];
    annotate_in_use(&platform, &mut entries);
    assert_eq!(entries[0].in_use, None);
}

#[test]
fn answers_are_kept_for_single_files_alone() {
    let mut entries = vec![entry("/f", 1, 1, None), entry("/d", 1, 2, None)];
    set_in_use(&mut entries, &vec![Some(true), Some(true)]);
    assert_eq!(entries[0].in_use, Some(true));
    assert_eq!(entries[1].in_use, None);
}

#[test]
fn hashes_are_those_of_xxh3() {
    assert_eq!(hash_file(Some(b"")), Some(0x2d06800538d394c2));
    assert_eq!(
        hash_file(Some(b"same content")),
        Some(twox_hash::XxHash3_64::oneshot(b"same content"))
    );
    assert_ne!(hash_file(Some(b"AAAAA")), hash_file(Some(b"BBBBB")));
    assert_eq!(hash_file(None), None);
}

#[test]
fn duplicates_require_identical_content_not_just_size() {
    let mut entries = vec![entry("/a.bin", 5, 1, Some(10)), entry("/b.bin", 5, 1, Some(20))];
    assert_eq!(entries_to_hash(&entries), vec![true, true]);
    annotate_duplicates(&mut entries, &vec![hash_file(Some(b"AAAAA")), hash_file(Some(b"BBBBB"))]);

    assert!(entries[0].duplicate.is_none());
    assert!(entries[1].duplicate.is_none());
}

#[test]
fn duplicates_group_three_identical_files_with_one_primary() {
    let mut entries = vec![
        entry("/a.bin", 12, 1, Some(5)),
        entry("/b.bin", 12, 1, Some(50)),
        entry("/c.bin", 12, 1, Some(1)),
    ];
    let hash = hash_file(Some(b"same content"));
    annotate_duplicates(&mut entries, &vec![hash, hash, hash]);

    for e in &entries {
        let info = e.duplicate.unwrap();
        assert_eq!(info.group_size, 3);
    }
    assert_eq!(
        entries[0].duplicate.unwrap().group_id,
        entries[1].duplicate.unwrap().group_id
    );
    assert_eq!(
        entries[1].duplicate.unwrap().group_id,
        entries[2].duplicate.unwrap().group_id
    );

    assert!(!entries[0].duplicate.unwrap().is_primary);
    assert!(entries[1].duplicate.unwrap().is_primary);
    assert!(!entries[2].duplicate.unwrap().is_primary);
}

#[test]
fn files_over_the_hash_cap_are_skipped() {
    let too_big = MAX_HASH_BYTES + 1;
    let mut entries =
        vec![entry("/a.bin", too_big, 1, Some(1)), entry("/b.bin", too_big, 1, Some(2))];
    assert_eq!(entries_to_hash(&entries), vec![false, false]);
    let hash = hash_file(Some(b"x"));
    annotate_duplicates(&mut entries, &vec![hash, hash]);

    assert!(entries[0].duplicate.is_none());
    assert!(entries[1].duplicate.is_none());
}

#[test]
fn zero_byte_files_are_not_grouped() {
    let mut entries = vec![entry("/a.bin", 0, 1, Some(1)), entry("/b.bin", 0, 1, Some(2))];
    assert_eq!(entries_to_hash(&entries), vec![false, false]);
    let hash = hash_file(Some(b""));
    annotate_duplicates(&mut entries, &vec![hash, hash]);

    assert!(entries[0].duplicate.is_none());
    assert!(entries[1].duplicate.is_none());
}

#[test]
fn directory_aggregate_entries_are_not_considered_for_duplicates() {
    let mut entries = vec![entry("/dir/a", 10, 2, Some(1)), entry("/dir/b", 10, 2, Some(1))];
    annotate_duplicates(&mut entries, &vec![Some(1), Some(1)]);
    assert!(entries[0].duplicate.is_none());
    assert!(entries[1].duplicate.is_none());
}

#[test]
fn files_that_could_not_be_read_are_no_duplicates() {
    let mut entries = vec![entry("/a", 10, 1, Some(1)), entry("/b", 10, 1, Some(1))];
    annotate_duplicates(&mut entries, &vec![None, None]);
    assert!(entries.iter().all(|e| e.duplicate.is_none()));
}

// ---- After the scan ----

fn two_scanned() -> (Vec<ScanEntry>, Rule) {
    let platform = FakePlatform::new().with(KnownDir::UserTemp, "/t");
    let listing = vec![file("/t/a.tmp", 12, 10), file("/t/b.tmp", 12, 5)];
    let entries = scan(&platform, &[user_temp()], Lang::Ja, &vec![listing], NOW);
    (entries, user_temp())
}

#[test]
fn scan_pipeline_applies_recommend_after_duplicate_detection() {
    let (mut entries, rule) = two_scanned();
    let config = Config { detect_duplicates: true, ..Config::default() };
    let hash = hash_file(Some(b"same content"));
    let mut events = vec![ScanProgress::Finished { entries: 2, total_size: 24 }];
    scan_pipeline_with_progress(
        &mut entries,
        &mut events,
        &[rule],
        &config,
        &vec![hash, hash],
    );

    assert_eq!(entries.len(), 2);
    assert!(entries.iter().any(|e| e.duplicate.is_some()));
    let non_primary = entries
        .iter()
        .find(|e| matches!(e.duplicate, Some(info) if !info.is_primary))
        .unwrap();
    assert!(non_primary.reason.contains("同一内容のファイルが他に"));
    assert_eq!(
        entries[0].duplicate,
        Some(DuplicateInfo { group_id: 0, group_size: 2, is_primary: true })
    );
    assert_eq!(
        events,
        vec![
            ScanProgress::Finished { entries: 2, total_size: 24 },
            ScanProgress::Inspecting { done: 0, total: 2 },
            ScanProgress::Inspecting { done: 2, total: 2 }
        ]
    );
}

#[test]
fn the_pipeline_comes_to_the_same_with_reports_and_without() {
    let hash = hash_file(Some(b"same content"));
    for detect_duplicates in [true, false] {
        let config = Config { detect_duplicates, ..Config::default() };
        let (mut plain, rule) = two_scanned();
        let (mut reported, _) = two_scanned();
        let mut events = Vec::new();
        let hashes = vec![hash, hash];
        scan_pipeline(&mut plain, &[rule.clone()], &config, &hashes);
        scan_pipeline_with_progress(&mut reported, &mut events, &[rule], &config, &hashes);
        assert_eq!(plain, reported);
        assert_eq!(events.len(), if detect_duplicates { 2 } else { 0 });
    }
}

#[test]
fn scan_pipeline_skips_duplicate_detection_when_disabled() {
    let (mut entries, rule) = two_scanned();
    let config = Config::default();
    scan_pipeline(&mut entries, &[rule], &config, &Vec::new());

    assert_eq!(entries.len(), 2);
    assert!(entries.iter().all(|e| e.duplicate.is_none()));
    assert!(entries.iter().all(|e| !e.reason.contains("同一内容のファイルが他に")));
}

#[test]
fn applying_prefs_twice_changes_nothing() {
    let (mut entries, _) = two_scanned();
    let mut config = Config::default();
    config.rule_prefs.insert("user_temp".to_string(), RulePref::Exclude);
    apply_rule_prefs(&mut entries, &config);
    let once: Vec<ScanEntry> = entries.iter().map(|e| e.clone()).collect();
    apply_rule_prefs(&mut entries, &config);
    assert_eq!(entries, once);
    assert!(entries.iter().all(|e| !e.selected));
}
