use pc_cleaner::config::{AGE_THRESHOLD_MAX_DAYS, AGE_THRESHOLD_MIN_DAYS};
use pc_cleaner::path::{FilePath, PathPart};
use pc_cleaner::platform::{
    ElevateError, ElevateResult, KnownDir, Platform, PlatformError, RestoreItemOutcome, TrashEntry,
};
use pc_cleaner::rule::builtin_rules;
use pc_cleaner::ruleset::{
    build_user_rule, normalize_extension, parse_allowed_base, parse_safety, resolve_rules,
    rules_file_path, rules_file_to_read, validate_id, validate_text, RawMatchKind, RawUserRule,
    RuleFile, RuleOverride, RuleSet, RuleSource, MAX_USER_RULES,
};
use pc_cleaner::{Config, MatchKind, Safety};

struct FakePlatform {
    config_dir: Option<FilePath>,
}

impl Platform for FakePlatform {
    fn known_dir(&self, _kind: KnownDir) -> Option<FilePath> {
        None
    }
    fn to_trash(&self, _path: &FilePath) -> Result<(), PlatformError> {
        Err(PlatformError::Unsupported("to_trash"))
    }
    fn requires_admin(&self, _path: &FilePath) -> bool {
        false
    }
    fn config_dir(&self) -> Option<FilePath> {
        self.config_dir.clone()
    }
    fn is_elevated(&self) -> bool {
        false
    }
    fn elevate(&self, _args: &[String]) -> ElevateResult {
        Err(ElevateError::Unsupported)
    }
    fn is_file_in_use(&self, _path: &FilePath) -> Option<bool> {
        None
    }
    fn list_trash(&self) -> Result<Vec<TrashEntry>, PlatformError> {
        Err(PlatformError::Unsupported("list_trash"))
    }
    fn restore_from_trash(&self, _ids: &[String]) -> Vec<(String, RestoreItemOutcome)> {
        Vec::new()
    }
}

fn user_rule(id: &str, base: &str, match_kind: Option<RawMatchKind>) -> RawUserRule {
    RawUserRule {
        id: Some(id.to_string()),
        label: Some("x".to_string()),
        description: Some("y".to_string()),
        base: Some(base.to_string()),
        match_kind,
        safety: None,
        age_threshold_days: None,
        has_needs_admin: false,
    }
}

fn no_change() -> RuleOverride {
    RuleOverride { safety: None, age_threshold_days: None, enabled: None, has_needs_admin: false }
}

fn rules_only(rules: Vec<RawUserRule>) -> RuleFile {
    RuleFile { schema_version: 0, overrides: Vec::new(), rules }
}

fn overrides_only(overrides: Vec<(&str, RuleOverride)>) -> RuleFile {
    RuleFile {
        schema_version: 0,
        overrides: overrides.into_iter().map(|(id, o)| (id.to_string(), o)).collect(),
        rules: Vec::new(),
    }
}

// ---- What a rule file cannot do ----

#[test]
fn admin_area_bases_are_rejected_for_user_defined_rules() {
    for base in ["SystemTemp", "WindowsUpdateCache", "DeliveryOptimizationCache"] {
        let file = rules_only(vec![user_rule("evil", base, Some(RawMatchKind::All))]);
        let (rules, issues) = resolve_rules(&Config::default(), Some(&file));
        assert!(!rules.iter().any(|r| r.id == "evil"), "base={base}");
        assert!(!issues.is_empty(), "base={base}");
    }
}

#[test]
fn recycle_bin_base_is_rejected_for_user_defined_rules() {
    let file = rules_only(vec![user_rule("evil", "RecycleBin", Some(RawMatchKind::All))]);
    let (rules, issues) = resolve_rules(&Config::default(), Some(&file));
    assert!(!rules.iter().any(|r| r.id == "evil"));
    assert!(!issues.is_empty());
}

#[test]
fn needs_admin_in_user_rule_is_ignored_and_forced_false() {
    let mut raw = user_rule("my_rule", "UserTemp", Some(RawMatchKind::All));
    raw.has_needs_admin = true;
    let (rules, issues) = resolve_rules(&Config::default(), Some(&rules_only(vec![raw])));
    assert!(!rules.iter().any(|r| r.id == "my_rule"));
    assert!(issues.iter().any(|i| i.message.contains("needs_admin")));
}

#[test]
fn overrides_cannot_set_needs_admin() {
    let file = overrides_only(vec![(
        "system_temp",
        RuleOverride { has_needs_admin: true, ..no_change() },
    )]);
    let (rules, issues) = resolve_rules(&Config::default(), Some(&file));
    let system_temp = rules.iter().find(|r| r.id == "system_temp").unwrap();
    assert!(system_temp.needs_admin);
    assert!(issues.iter().any(|i| i.message.contains("needs_admin")));
}

#[test]
fn overrides_cannot_lower_safety_below_current() {
    let file = overrides_only(vec![(
        "system_temp",
        RuleOverride { safety: Some("Safe".to_string()), ..no_change() },
    )]);
    let (rules, issues) = resolve_rules(&Config::default(), Some(&file));
    let system_temp = rules.iter().find(|r| r.id == "system_temp").unwrap();
    assert_eq!(system_temp.safety, Safety::Review);
    assert_eq!(issues.len(), 1);
    assert_eq!(
        issues[0].message,
        "'system_temp' の safety をリスクの低い方向（Review → Safe）には変更できません"
    );
}

#[test]
fn overrides_can_raise_safety() {
    let file = overrides_only(vec![(
        "user_temp",
        RuleOverride { safety: Some("Caution".to_string()), ..no_change() },
    )]);
    let (rules, issues) = resolve_rules(&Config::default(), Some(&file));
    let user_temp = rules.iter().find(|r| r.id == "user_temp").unwrap();
    assert_eq!(user_temp.safety, Safety::Caution);
    assert!(issues.is_empty());
}

#[test]
fn overrides_can_disable_a_builtin_rule() {
    let file = overrides_only(vec![(
        "old_logs",
        RuleOverride { enabled: Some(false), ..no_change() },
    )]);
    let (rules, _issues) = resolve_rules(&Config::default(), Some(&file));
    assert!(!rules.iter().any(|r| r.id == "old_logs"));
}

#[test]
fn overrides_can_adjust_age_threshold_with_clamping() {
    let file = overrides_only(vec![(
        "old_logs",
        RuleOverride { age_threshold_days: Some(99999), ..no_change() },
    )]);
    let (rules, _issues) = resolve_rules(&Config::default(), Some(&file));
    let old_logs = rules.iter().find(|r| r.id == "old_logs").unwrap();
    assert_eq!(old_logs.age_threshold_days, Some(AGE_THRESHOLD_MAX_DAYS));
}

#[test]
fn unknown_override_rule_id_produces_an_issue_but_others_still_apply() {
    let caution = || RuleOverride { safety: Some("Caution".to_string()), ..no_change() };
    let file = overrides_only(vec![("no_such_rule", caution()), ("user_temp", caution())]);
    let (rules, issues) = resolve_rules(&Config::default(), Some(&file));
    assert!(issues.iter().any(|i| i.rule_id.as_deref() == Some("no_such_rule")));
    let user_temp = rules.iter().find(|r| r.id == "user_temp").unwrap();
    assert_eq!(user_temp.safety, Safety::Caution);
}

#[test]
fn an_unknown_safety_in_an_override_is_reported() {
    let file = overrides_only(vec![(
        "user_temp",
        RuleOverride { safety: Some("Harmless".to_string()), ..no_change() },
    )]);
    let (rules, issues) = resolve_rules(&Config::default(), Some(&file));
    assert_eq!(rules.iter().find(|r| r.id == "user_temp").unwrap().safety, Safety::Safe);
    assert_eq!(
        issues[0].message,
        "'user_temp' の safety: 'Harmless' は不明です（Safe / Caution / Review）"
    );
}

// ---- Rules of the user's own ----

#[test]
fn valid_user_rule_with_extension_match_is_added() {
    let mut raw = user_rule(
        "my_app_cache",
        "LocalAppData",
        Some(RawMatchKind::Extension {
            extensions: vec![".TMP".to_string(), ".cache".to_string()],
        }),
    );
    raw.label = Some("MyApp".to_string());
    raw.description = Some("desc".to_string());
    raw.safety = Some("Caution".to_string());
    let (rules, issues) = resolve_rules(&Config::default(), Some(&rules_only(vec![raw])));
    assert!(issues.is_empty());
    let rule = rules.iter().find(|r| r.id == "my_app_cache").unwrap();
    assert!(rule.is_user_defined);
    assert!(!rule.needs_admin);
    assert_eq!(rule.safety, Safety::Caution);
    assert_eq!(rule.base, KnownDir::LocalAppData);
    assert_eq!(
        rule.match_kind,
        MatchKind::Extension(vec!["tmp".to_string(), "cache".to_string()])
    );
}

#[test]
fn user_rule_defaults_to_review_safety() {
    let file = rules_only(vec![user_rule("my_rule", "UserTemp", Some(RawMatchKind::All))]);
    let (rules, _issues) = resolve_rules(&Config::default(), Some(&file));
    assert_eq!(rules.iter().find(|r| r.id == "my_rule").unwrap().safety, Safety::Review);
}

#[test]
fn user_rule_cannot_request_safe_safety() {
    let mut raw = user_rule("my_rule", "UserTemp", Some(RawMatchKind::All));
    raw.safety = Some("Safe".to_string());
    let (rules, issues) = resolve_rules(&Config::default(), Some(&rules_only(vec![raw])));
    assert!(!rules.iter().any(|r| r.id == "my_rule"));
    assert!(issues.iter().any(|i| i.message.contains("Safe")));
}

#[test]
fn user_rule_id_colliding_with_builtin_is_rejected() {
    let file = rules_only(vec![user_rule("user_temp", "UserTemp", Some(RawMatchKind::All))]);
    let (rules, issues) = resolve_rules(&Config::default(), Some(&file));
    assert_eq!(rules.iter().filter(|r| r.id == "user_temp").count(), 1);
    assert!(!issues.is_empty());
}

#[test]
fn duplicate_user_rule_ids_are_rejected() {
    let dup = |label: &str| RawUserRule {
        label: Some(label.to_string()),
        ..user_rule("dup", "UserTemp", Some(RawMatchKind::All))
    };
    let file = rules_only(vec![dup("a"), dup("b")]);
    let (rules, issues) = resolve_rules(&Config::default(), Some(&file));
    assert_eq!(rules.iter().filter(|r| r.id == "dup").count(), 1);
    assert!(!issues.is_empty());
}

#[test]
fn invalid_id_characters_are_rejected() {
    let file = rules_only(vec![user_rule("My Rule!", "UserTemp", Some(RawMatchKind::All))]);
    let (rules, issues) = resolve_rules(&Config::default(), Some(&file));
    assert!(rules.iter().all(|r| r.id != "My Rule!"));
    assert!(!issues.is_empty());
}

#[test]
fn label_containing_a_path_like_string_is_rejected() {
    let mut raw = user_rule("my_rule", "UserTemp", Some(RawMatchKind::All));
    raw.label = Some("C:\\Users".to_string());
    let (rules, issues) = resolve_rules(&Config::default(), Some(&rules_only(vec![raw])));
    assert!(!rules.iter().any(|r| r.id == "my_rule"));
    assert!(!issues.is_empty());
}

#[test]
fn older_than_without_age_threshold_is_rejected() {
    let file = rules_only(vec![user_rule("my_rule", "Downloads", Some(RawMatchKind::OlderThan))]);
    let (rules, issues) = resolve_rules(&Config::default(), Some(&file));
    assert!(!rules.iter().any(|r| r.id == "my_rule"));
    assert!(!issues.is_empty());
}

#[test]
fn extension_match_without_any_extensions_is_rejected() {
    let file = rules_only(vec![user_rule(
        "my_rule",
        "Cache",
        Some(RawMatchKind::Extension { extensions: Vec::new() }),
    )]);
    let (rules, issues) = resolve_rules(&Config::default(), Some(&file));
    assert!(!rules.iter().any(|r| r.id == "my_rule"));
    assert!(!issues.is_empty());
}

#[test]
fn unknown_base_name_produces_an_issue_but_other_rules_still_apply() {
    let file = rules_only(vec![
        user_rule("bad", "NoSuchDir", Some(RawMatchKind::All)),
        user_rule("good", "UserTemp", Some(RawMatchKind::All)),
    ]);
    let (rules, issues) = resolve_rules(&Config::default(), Some(&file));
    assert!(!rules.iter().any(|r| r.id == "bad"));
    assert!(rules.iter().any(|r| r.id == "good"));
    assert!(issues.iter().any(|i| i.rule_id.as_deref() == Some("bad")));
}

#[test]
fn user_rule_count_beyond_max_is_truncated_with_an_issue() {
    let list = (0..MAX_USER_RULES + 5)
        .map(|i| user_rule(&format!("rule_{i}"), "UserTemp", Some(RawMatchKind::All)))
        .collect();
    let (rules, issues) = resolve_rules(&Config::default(), Some(&rules_only(list)));
    let user_defined_count = rules.iter().filter(|r| r.is_user_defined).count();
    assert_eq!(user_defined_count, MAX_USER_RULES);
    assert!(issues.iter().any(|i| i.message.contains("最大")));
    assert_eq!(
        issues.last().unwrap().message,
        "ユーザー定義ルールは最大 32 件までです（37件のうち超過分は無視しました）"
    );
}

#[test]
fn age_threshold_is_clamped_for_user_rules() {
    let mut raw = user_rule("my_rule", "Downloads", Some(RawMatchKind::OlderThan));
    raw.age_threshold_days = Some(0);
    let (rules, _issues) = resolve_rules(&Config::default(), Some(&rules_only(vec![raw])));
    let rule = rules.iter().find(|r| r.id == "my_rule").unwrap();
    assert_eq!(rule.age_threshold_days, Some(AGE_THRESHOLD_MIN_DAYS));
}

#[test]
fn no_file_means_builtin_rules_unchanged() {
    let (rules, issues) = resolve_rules(&Config::default(), None);
    assert_eq!(rules, builtin_rules(&Config::default()));
    assert!(issues.is_empty());
}

#[test]
fn each_missing_part_of_a_rule_has_its_own_message() {
    let whole = || user_rule("my_rule", "UserTemp", Some(RawMatchKind::All));
    let none: Vec<String> = Vec::new();
    let message = |raw: RawUserRule| build_user_rule(&raw, &none, &none).unwrap_err();

    assert_eq!(message(RawUserRule { id: None, ..whole() }), "id は必須です");
    assert_eq!(message(RawUserRule { label: None, ..whole() }), "label は必須です");
    assert_eq!(message(RawUserRule { description: None, ..whole() }), "description は必須です");
    assert_eq!(message(RawUserRule { base: None, ..whole() }), "base は必須です");
    assert_eq!(message(RawUserRule { match_kind: None, ..whole() }), "match は必須です");
    assert_eq!(
        message(RawUserRule {
            match_kind: Some(RawMatchKind::Extension { extensions: vec!["a b".to_string()] }),
            ..whole()
        }),
        "拡張子 'a b' は使用できません"
    );
    assert!(build_user_rule(&whole(), &none, &none).is_ok());
}

#[test]
fn the_id_of_a_disabled_rule_is_free_again() {
    let file = RuleFile {
        schema_version: 1,
        overrides: vec![(
            "old_logs".to_string(),
            RuleOverride { enabled: Some(false), ..no_change() },
        )],
        rules: vec![user_rule("old_logs", "UserTemp", Some(RawMatchKind::All))],
    };
    let (rules, issues) = resolve_rules(&Config::default(), Some(&file));
    assert!(issues.is_empty());
    assert!(rules.iter().find(|r| r.id == "old_logs").unwrap().is_user_defined);
}

// ---- The parts ----

#[test]
fn safeties_and_bases_are_parsed_by_name() {
    assert_eq!(parse_safety("Safe"), Ok(Safety::Safe));
    assert_eq!(parse_safety("Caution"), Ok(Safety::Caution));
    assert_eq!(parse_safety("Review"), Ok(Safety::Review));
    assert_eq!(
        parse_safety("safe").unwrap_err(),
        "'safe' は不明です（Safe / Caution / Review）"
    );
    assert_eq!(parse_allowed_base("Cache"), Ok(KnownDir::Cache));
    assert_eq!(
        parse_allowed_base("RecycleBin").unwrap_err(),
        "base 'RecycleBin' は使用できません（許可: UserTemp, LocalAppData, Cache, Downloads, ThumbnailCache）"
    );
}

#[test]
fn ids_are_checked() {
    let none: Vec<String> = Vec::new();
    let taken = vec!["a".to_string()];
    assert!(validate_id("a_1", &none, &none).is_ok());
    assert!(validate_id(&"a".repeat(64), &none, &none).is_ok());
    assert!(validate_id(&"a".repeat(65), &none, &none).is_err());
    assert!(validate_id("", &none, &none).is_err());
    assert!(validate_id("é", &none, &none).is_err());
    assert_eq!(
        validate_id("a", &taken, &none).unwrap_err(),
        "id 'a' は組み込みルールと重複しています（上書きは overrides を使ってください）"
    );
    assert_eq!(
        validate_id("a", &none, &taken).unwrap_err(),
        "id 'a' はユーザー定義ルール内で重複しています"
    );
    assert_eq!(
        validate_id("A", &none, &none).unwrap_err(),
        "id 'A' は1〜64文字の英小文字・数字・アンダースコアのみ使用できます"
    );
}

#[test]
fn texts_are_checked() {
    assert!(validate_text("ok", "label", 2).is_ok());
    assert_eq!(validate_text("", "label", 2).unwrap_err(), "label を空にすることはできません");
    assert_eq!(validate_text("abc", "label", 2).unwrap_err(), "label は2文字以内にしてください");
    assert_eq!(
        validate_text("C:", "label", 2).unwrap_err(),
        "label にパスらしき文字（':' や '\\'）を含めることはできません"
    );
    assert_eq!(
        validate_text("a\u{7}", "label", 2).unwrap_err(),
        "label に制御文字を含めることはできません"
    );
    assert!(validate_text("日本", "label", 2).is_ok());
}

#[test]
fn extensions_are_normalized() {
    assert_eq!(normalize_extension("..LOG"), Ok("log".to_string()));
    assert_eq!(normalize_extension("Ärger"), Ok("ärger".to_string()));
    for bad in ["", ".", "a/b", "a\\b", "a:b", "*", "a b"] {
        assert_eq!(
            normalize_extension(bad),
            Err(format!("拡張子 '{bad}' は使用できません"))
        );
    }
}

// ---- Loading ----

#[test]
fn load_without_config_dir_falls_back_to_builtin() {
    let platform = FakePlatform { config_dir: None };
    let config = Config::default();
    assert!(rules_file_to_read(&platform, &config).is_none());
    let set = RuleSet::load(&config, &RuleSource::Missing);
    assert_eq!(set.all(), builtin_rules(&config));
    assert!(set.issues().is_empty());
}

#[test]
fn load_when_file_missing_falls_back_to_builtin_without_issue() {
    let set = RuleSet::load(&Config::default(), &RuleSource::Missing);
    assert_eq!(set.all(), builtin_rules(&Config::default()));
    assert!(set.issues().is_empty());
}

#[test]
fn load_when_file_is_corrupt_falls_back_to_builtin_with_an_issue() {
    let source = RuleSource::Corrupt {
        path: "/c/rules.json".to_string(),
        error: "expected ident at line 1 column 2".to_string(),
    };
    let set = RuleSet::load(&Config::default(), &source);
    assert_eq!(set.all(), builtin_rules(&Config::default()));
    assert_eq!(set.issues().len(), 1);
    assert_eq!(
        set.issues()[0].message,
        "ルール定義ファイル（/c/rules.json）の解析に失敗しました: expected ident at line 1 column 2。組み込みルールのみで続行します。"
    );
}

#[test]
fn a_file_that_cannot_be_read_is_reported() {
    let source = RuleSource::Unreadable { path: "/c".to_string(), error: "denied".to_string() };
    let set = RuleSet::load(&Config::default(), &source);
    assert_eq!(set.all(), builtin_rules(&Config::default()));
    assert_eq!(
        set.issues()[0].message,
        "ルール定義ファイル（/c）を読み込めませんでした: denied。組み込みルールのみで続行します。"
    );
}

#[test]
fn load_when_schema_version_is_unsupported_falls_back_to_builtin_with_an_issue() {
    let file = RuleFile { schema_version: 999, overrides: Vec::new(), rules: Vec::new() };
    let set = RuleSet::load(&Config::default(), &RuleSource::Parsed(file));
    assert_eq!(set.all(), builtin_rules(&Config::default()));
    assert_eq!(set.issues().len(), 1);
    assert!(set.issues()[0].message.contains("999"));
}

#[test]
fn load_when_disabled_does_not_read_the_file() {
    let platform = FakePlatform {
        config_dir: Some(FilePath {
            text: "/c".to_string(),
            parts: vec![PathPart::RootDir, PathPart::Normal("c".to_string())],
        }),
    };
    let config = Config { user_rules_enabled: false, ..Config::default() };
    assert!(rules_file_path(&platform).is_some());
    assert!(rules_file_to_read(&platform, &config).is_none());
    let source = RuleSource::Corrupt { path: "/c".to_string(), error: "bad".to_string() };
    let set = RuleSet::load(&config, &source);
    assert_eq!(set.all(), builtin_rules(&config));
    assert!(set.issues().is_empty());
}

#[test]
fn load_applies_valid_overrides_and_user_rules_from_disk() {
    let file = RuleFile {
        schema_version: 1,
        overrides: vec![(
            "old_logs".to_string(),
            RuleOverride { safety: Some("Review".to_string()), ..no_change() },
        )],
        rules: vec![RawUserRule {
            label: Some("MyApp".to_string()),
            description: Some("desc".to_string()),
            ..user_rule("my_app_cache", "LocalAppData", Some(RawMatchKind::All))
        }],
    };
    let set = RuleSet::load(&Config::default(), &RuleSource::Parsed(file));
    assert!(set.issues().is_empty());
    assert_eq!(set.all().iter().find(|r| r.id == "old_logs").unwrap().safety, Safety::Review);
    assert!(set.all().iter().any(|r| r.id == "my_app_cache"));
    assert_eq!(set.user_defined_rule_count(), 1);
}

#[test]
fn for_safeties_still_excludes_needs_admin_rules_unless_elevated() {
    let set = RuleSet::builtin(&Config::default());
    let not_elevated = set.for_safeties(&[Safety::Review], false);
    assert!(!not_elevated.iter().any(|r| r.needs_admin));
    let elevated = set.for_safeties(&[Safety::Review], true);
    assert!(elevated.iter().any(|r| r.id == "system_temp"));
}

#[test]
fn for_safeties_includes_user_defined_rules_regardless_of_elevation() {
    let mut raw = user_rule("my_rule", "UserTemp", Some(RawMatchKind::All));
    raw.safety = Some("Caution".to_string());
    let set = RuleSet::load(&Config::default(), &RuleSource::Parsed(rules_only(vec![raw])));
    let not_elevated = set.for_safeties(&[Safety::Caution], false);
    assert!(not_elevated.iter().any(|r| r.id == "my_rule"));
}
