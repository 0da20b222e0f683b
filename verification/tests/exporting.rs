use pc_cleaner::breakdown::{by_rule, from_plan};
use pc_cleaner::export::{
    plan_export, plan_to_csv, quote_csv_field, scan_export, scan_to_csv, write_csv_row,
    CSV_HEADER, SCHEMA_VERSION,
};
use pc_cleaner::path::{FilePath, PathPart};
use pc_cleaner::platform::{
    ElevateError, ElevateResult, KnownDir, Platform, PlatformError, RestoreItemOutcome, TrashEntry,
};
use pc_cleaner::{
    preview, Config, DeleteAction, DeleteMode, DeletePlan, DeleteRequest, MatchKind, Rule, Safety,
    ScanEntry,
};

fn path(text: &str) -> FilePath {
    let mut parts = Vec::new();
    if text.starts_with('/') {
        parts.push(PathPart::RootDir);
    }
    for name in text.split('/') {
        if !name.is_empty() {
            parts.push(PathPart::Normal(name.to_string()));
        }
    }
    FilePath { text: text.to_string(), parts }
}

// ---- Fields ----

#[test]
fn quote_csv_field_passes_through_plain_values() {
    assert_eq!(quote_csv_field(""), "");
    assert_eq!(quote_csv_field("user_temp"), "user_temp");
    assert_eq!(quote_csv_field(r"C:\Users\alice\Temp"), r"C:\Users\alice\Temp");
}

#[test]
fn quote_csv_field_wraps_values_with_commas() {
    assert_eq!(quote_csv_field("a,b"), "\"a,b\"");
}

#[test]
fn quote_csv_field_escapes_embedded_quotes() {
    assert_eq!(quote_csv_field(r#"say "hi""#), "\"say \"\"hi\"\"\"");
}

#[test]
fn quote_csv_field_wraps_values_with_newlines() {
    assert_eq!(quote_csv_field("a\nb"), "\"a\nb\"");
    assert_eq!(quote_csv_field("a\rb"), "\"a\rb\"");
}

#[test]
fn rows_join_quoted_fields() {
    let mut out = String::from("x\n");
    write_csv_row(&mut out, &vec!["a".to_string(), "b,c".to_string(), String::new()]);
    assert_eq!(out, "x\na,\"b,c\",\n");
}

// ---- Small data ----

fn sample_rule() -> Rule {
    Rule {
        id: "user_temp".to_string(),
        label: "ユーザー一時ファイル".to_string(),
        description: "テスト用".to_string(),
        base: KnownDir::UserTemp,
        match_kind: MatchKind::All,
        needs_admin: false,
        safety: Safety::Safe,
        age_threshold_days: None,
        large_file_threshold_bytes: None,
        is_user_defined: false,
    }
}

fn sample_entry(at: &str, size: u64, selected: bool) -> ScanEntry {
    ScanEntry {
        rule_id: "user_temp".to_string(),
        path: path(at),
        size,
        file_count: 1,
        modified: None,
        age_days: Some(3),
        in_use: None,
        duplicate: None,
        recommended: true,
        reason: "180日以上経過".to_string(),
        selected,
    }
}

struct FakePlatform {
    temp_dir: FilePath,
}

impl Platform for FakePlatform {
    fn known_dir(&self, kind: KnownDir) -> Option<FilePath> {
        match kind {
            KnownDir::UserTemp => Some(self.temp_dir.clone()),
            _ => None,
        }
    }
    fn to_trash(&self, _path: &FilePath) -> Result<(), PlatformError> {
        Ok(())
    }
    fn requires_admin(&self, _path: &FilePath) -> bool {
        false
    }
    fn config_dir(&self) -> Option<FilePath> {
        None
    }
    fn is_elevated(&self) -> bool {
        false
    }
    fn elevate(&self, _args: &[String]) -> ElevateResult {
        Err(ElevateError::Unsupported)
    }
    fn is_file_in_use(&self, _path: &FilePath) -> Option<bool> {
        None
    }
    fn list_trash(&self) -> Result<Vec<TrashEntry>, PlatformError> {
        Err(PlatformError::Unsupported("list_trash"))
    }
    fn restore_from_trash(&self, _ids: &[String]) -> Vec<(String, RestoreItemOutcome)> {
        Vec::new()
    }
}

fn plan_of(entries: &[ScanEntry]) -> DeletePlan {
    let platform = FakePlatform { temp_dir: path("/base") };
    let mode = DeleteMode::resolve(&Config::default(), DeleteRequest::dry_run());
    preview(&platform, entries, &[sample_rule()], mode)
}

fn sample_plan() -> DeletePlan {
    plan_of(&[sample_entry("/base/a.tmp", 5, true)])
}

// ---- Exports ----

#[test]
fn scan_to_json_summary_matches_entries() {
    let entries = vec![sample_entry("a.tmp", 10, true), sample_entry("b.tmp", 20, false)];
    let export = scan_export(&entries, &[sample_rule()], 99);
    assert_eq!(SCHEMA_VERSION, 1);
    assert_eq!(export.schema_version, SCHEMA_VERSION);
    assert_eq!(export.kind, "scan");
    assert_eq!(export.generated_at_secs, 99);
    assert_eq!(export.summary.item_count, 2);
    assert_eq!(export.summary.selected_count, 1);
    assert_eq!(export.summary.total_size, 30);
    assert_eq!(export.summary.selected_size, 10);
    assert_eq!(export.items[0].rule_label, "ユーザー一時ファイル");
    assert_eq!(export.items[0].safety, Safety::Safe);
}

#[test]
fn scan_to_json_falls_back_to_rule_id_for_unknown_rule() {
    let entries = vec![sample_entry("a.tmp", 10, true)];
    let export = scan_export(&entries, &[], 0);
    assert_eq!(export.items[0].rule_label, "user_temp");
    assert_eq!(export.items[0].safety, Safety::Review);
}

#[test]
fn plan_to_json_summary_matches_plan_totals() {
    let plan = sample_plan();
    let export = plan_export(&plan, &[sample_rule()], 0);
    assert_eq!(export.kind, "plan");
    assert!(export.dry_run);
    assert_eq!(export.summary.item_count, plan.item_count());
    assert_eq!(export.summary.total_size, plan.total_size());
    assert_eq!(export.summary.total_file_count, plan.total_file_count());
    assert_eq!(export.items[0].action, DeleteAction::ToTrash);
}

#[test]
fn plan_to_json_breakdown_total_matches_plan_total_size() {
    let plan = sample_plan();
    let export = plan_export(&plan, &[sample_rule()], 0);
    let breakdown_total: u64 = export.by_rule.iter().map(|c| c.total_size).sum();
    assert_eq!(breakdown_total, plan.total_size());
    let again: u64 = by_rule(&from_plan(&plan)).iter().map(|c| c.total_size).sum();
    assert_eq!(again, breakdown_total);
}

// ---- Tables ----

#[test]
fn scan_to_csv_has_header_and_one_row_per_entry() {
    let entries = vec![sample_entry("a.tmp", 10, true), sample_entry("b.tmp", 20, false)];
    let csv = scan_to_csv(&entries, &[sample_rule()]);
    let lines: Vec<&str> = csv.lines().collect();
    assert_eq!(lines.len(), 3);
    assert_eq!(lines[0], CSV_HEADER);
    assert!(lines[1].contains("scan,user_temp,ユーザー一時ファイル,Safe,a.tmp,10,1,3,true,true,,"));
    assert_eq!(
        lines[2],
        "scan,user_temp,ユーザー一時ファイル,Safe,b.tmp,20,1,3,true,false,,180日以上経過"
    );
}

#[test]
fn plan_to_csv_row_count_matches_items_plus_excluded() {
    let plan = sample_plan();
    let csv = plan_to_csv(&plan, &[sample_rule()]);
    let lines: Vec<&str> = csv.lines().collect();
    assert_eq!(lines.len(), 1 + plan.item_count() + plan.excluded().len());
    assert_eq!(lines[0], CSV_HEADER);
}

#[test]
fn excluded_entries_have_rows_of_their_own() {
    let plan = plan_of(&[
        sample_entry("/base/a.tmp", 5, true),
        sample_entry("/base/b.tmp", 6, false),
        sample_entry("/elsewhere/c.tmp", 7, true),
    ]);
    let csv = plan_to_csv(&plan, &[sample_rule()]);
    let lines: Vec<&str> = csv.lines().collect();
    assert_eq!(lines.len(), 4);
    assert_eq!(
        lines[1],
        "plan,user_temp,ユーザー一時ファイル,Safe,/base/a.tmp,5,1,,,,ToTrash,"
    );
    assert_eq!(
        lines[3],
        "excluded,user_temp,ユーザー一時ファイル,Safe,/elsewhere/c.tmp,7,,,,,,OutsideRuleBase"
    );
    let export = plan_export(&plan, &[sample_rule()], 0);
    assert_eq!(export.excluded.len(), 2);
    assert_eq!(export.excluded[0].size, 6);
}

#[test]
fn csv_quotes_paths_containing_commas() {
    let entries = vec![sample_entry("a,b.tmp", 10, true)];
    let csv = scan_to_csv(&entries, &[sample_rule()]);
    assert!(csv.contains("\"a,b.tmp\""));
}
