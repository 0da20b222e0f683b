use pc_cleaner::path::{FilePath, PathPart};
use pc_cleaner::recommend::recommend;
use pc_cleaner::{DuplicateInfo, KnownDir, Lang, MatchKind, Rule, Safety, ScanEntry};

fn rule(safety: Safety, age_threshold_days: Option<u64>, needs_admin: bool) -> Rule {
    Rule {
        id: "test_rule".to_string(),
        label: "テストルール".to_string(),
        description: "テスト用".to_string(),
        base: KnownDir::UserTemp,
        match_kind: MatchKind::All,
        needs_admin,
        safety,
        age_threshold_days,
        large_file_threshold_bytes: None,
        is_user_defined: false,
    }
}

fn entry(age_days: Option<u64>, modified: Option<i128>) -> ScanEntry {
    ScanEntry {
        rule_id: "test_rule".to_string(),
        path: FilePath {
            text: "/tmp/x".to_string(),
            parts: vec![
                PathPart::RootDir,
                PathPart::Normal("tmp".to_string()),
                PathPart::Normal("x".to_string()),
            ],
        },
        size: 0,
        file_count: 1,
        modified,
        age_days,
        in_use: None,
        duplicate: None,
        recommended: false,
        reason: String::new(),
        selected: false,
    }
}

#[test]
fn safe_temp_updated_today_is_not_recommended() {
    let r = rule(Safety::Safe, None, false);
    let e = entry(Some(0), None);
    let rec = recommend(&e, &r, Lang::Ja);
    assert!(!rec.recommended);
    assert!(rec.reason.contains("使用中"));
}

#[test]
fn caution_log_older_than_threshold_is_recommended() {
    let r = rule(Safety::Caution, Some(180), false);
    let e = entry(Some(200), None);
    let rec = recommend(&e, &r, Lang::Ja);
    assert!(rec.recommended);
}

#[test]
fn safety_determines_default_recommendation() {
    let e = entry(Some(30), None);

    let safe = rule(Safety::Safe, None, false);
    assert!(recommend(&e, &safe, Lang::Ja).recommended);

    let caution = rule(Safety::Caution, Some(180), false);
    assert!(!recommend(&e, &caution, Lang::Ja).recommended);

    let review = rule(Safety::Review, Some(90), false);
    assert!(!recommend(&e, &review, Lang::Ja).recommended);
}

#[test]
fn review_is_never_auto_recommended_however_old() {
    let r = rule(Safety::Review, Some(90), false);
    let e = entry(Some(9999), None);
    assert!(!recommend(&e, &r, Lang::Ja).recommended);
}

#[test]
fn needs_admin_rule_is_never_recommended() {
    for safety in [Safety::Safe, Safety::Caution, Safety::Review] {
        let r = rule(safety, Some(1), true);
        let e = entry(Some(9999), None);
        let rec = recommend(&e, &r, Lang::Ja);
        assert!(!rec.recommended);
        assert!(rec.reason.contains("管理者権限"));
        assert!(!rec.reason.contains("将来対応"));
    }
}

#[test]
fn reason_is_never_empty() {
    let ages = [None, Some(0), Some(1), Some(89), Some(90), Some(180), Some(9999)];
    for safety in [Safety::Safe, Safety::Caution, Safety::Review] {
        for needs_admin in [false, true] {
            for age_days in ages {
                let r = rule(safety, Some(90), needs_admin);
                let e = entry(age_days, None);
                assert!(!recommend(&e, &r, Lang::Ja).reason.is_empty());
            }
        }
    }
}

#[test]
fn result_does_not_depend_on_modified_field() {
    let r = rule(Safety::Caution, Some(180), false);
    let base = entry(Some(200), None);
    let with_epoch = entry(Some(200), Some(0));
    let with_now = entry(Some(200), Some(1_760_000_000_000_000_000));

    assert_eq!(recommend(&base, &r, Lang::Ja), recommend(&with_epoch, &r, Lang::Ja));
    assert_eq!(recommend(&base, &r, Lang::Ja), recommend(&with_now, &r, Lang::Ja));
}

#[test]
fn in_use_flag_overrides_the_age_heuristic() {
    let r = rule(Safety::Safe, None, false);
    let mut e = entry(Some(100), None);
    e.in_use = Some(true);

    let rec = recommend(&e, &r, Lang::Ja);
    assert!(!rec.recommended);
    assert!(rec.reason.contains("使用中"));
}

#[test]
fn unknown_in_use_falls_back_to_age_zero_heuristic() {
    let r = rule(Safety::Safe, None, false);
    let mut e = entry(Some(0), None);
    e.in_use = None;

    let rec = recommend(&e, &r, Lang::Ja);
    assert!(!rec.recommended);
    assert!(rec.reason.contains("使用中"));
}

#[test]
fn probe_says_free_beats_age_zero() {
    let r = rule(Safety::Safe, None, false);
    let mut e = entry(Some(0), None);
    e.in_use = Some(false);

    let rec = recommend(&e, &r, Lang::Ja);
    assert!(rec.recommended);
    assert!(!rec.reason.contains("使用中"));
}

#[test]
fn large_file_adds_a_note_without_changing_recommendation() {
    let mut r = rule(Safety::Safe, None, false);
    r.large_file_threshold_bytes = Some(1_000);

    let mut small = entry(Some(30), None);
    small.size = 999;
    let small_rec = recommend(&small, &r, Lang::Ja);
    assert!(small_rec.recommended);
    assert!(!small_rec.reason.contains("サイズが大きい"));

    let mut large = entry(Some(30), None);
    large.size = 1_000;
    let large_rec = recommend(&large, &r, Lang::Ja);
    assert!(large_rec.recommended);
    assert!(large_rec.reason.contains("サイズが大きい"));
}

#[test]
fn duplicate_note_appears_for_non_primary_entries() {
    let r = rule(Safety::Safe, None, false);

    let mut primary = entry(Some(30), None);
    primary.duplicate = Some(DuplicateInfo { group_id: 0, group_size: 3, is_primary: true });
    let primary_rec = recommend(&primary, &r, Lang::Ja);
    assert!(!primary_rec.reason.contains("同一内容のファイルが他に"));

    let mut secondary = entry(Some(30), None);
    secondary.duplicate = Some(DuplicateInfo { group_id: 0, group_size: 3, is_primary: false });
    let secondary_rec = recommend(&secondary, &r, Lang::Ja);
    assert!(secondary_rec.recommended);
    assert!(secondary_rec.reason.contains("同一内容のファイルが他に2件あります"));
}

#[test]
fn en_lang_produces_a_non_empty_ascii_reason() {
    let r = rule(Safety::Caution, Some(180), false);
    let e = entry(Some(200), None);
    let rec = recommend(&e, &r, Lang::En);
    assert!(rec.recommended);
    assert!(!rec.reason.is_empty());
    assert!(rec.reason.is_ascii());
}

#[test]
fn english_reasons_are_ascii_for_every_kind_of_rule() {
    for safety in [Safety::Safe, Safety::Caution, Safety::Review] {
        for needs_admin in [false, true] {
            for threshold in [None, Some(90)] {
                for age in [None, Some(0), Some(30), Some(365)] {
                    let r = rule(safety, threshold, needs_admin);
                    let rec = recommend(&entry(age, None), &r, Lang::En);
                    assert!(!rec.reason.is_empty());
                    assert!(rec.reason.is_ascii());
                }
            }
        }
    }
}

#[test]
fn the_threshold_itself_counts_as_reached() {
    let r = rule(Safety::Caution, Some(180), false);
    assert!(recommend(&entry(Some(180), None), &r, Lang::Ja).recommended);
    assert!(!recommend(&entry(Some(179), None), &r, Lang::Ja).recommended);
    assert!(!recommend(&entry(None, None), &r, Lang::Ja).recommended);
}
