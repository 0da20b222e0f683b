use pc_cleaner::path::{FilePath, PathPart};
use pc_cleaner::platform::{
    ElevateError, ElevateResult, KnownDir, Platform, PlatformError, RestoreItemOutcome, TrashEntry,
};
use pc_cleaner::restore::{
    candidates_for_run, correlate, listing_failed, restore, restore_run, RestoreCandidate,
};
use pc_cleaner::{AuditRecord, DeleteAction, DeleteMethod, ItemOutcome};
use std::collections::HashMap;

fn path(text: &str) -> FilePath {
    let mut parts = vec![PathPart::RootDir];
    for name in text.split('/') {
        if !name.is_empty() {
            parts.push(PathPart::Normal(name.to_string()));
        }
    }
    FilePath { text: text.to_string(), parts }
}

fn trash_entry(id: &str, original_path: &str, deleted_at_secs: Option<u64>) -> TrashEntry {
    TrashEntry {
        id: id.to_string(),
        original_path: path(original_path),
        deleted_at_secs,
        size: Some(10),
    }
}

fn audit_record(run_id: u64, timestamp_secs: u64, at: &str, rule_id: &str) -> AuditRecord {
    AuditRecord {
        run_id,
        timestamp_secs,
        rule_id: rule_id.to_string(),
        path: path(at),
        size: 10,
        action: DeleteAction::ToTrash,
        outcome: ItemOutcome::Deleted,
        method: DeleteMethod::Trash,
    }
}

#[test]
fn correlate_matches_by_path_action_and_outcome() {
    let trash = vec![trash_entry("1", "/tmp/a.txt", Some(100))];
    let audit = vec![audit_record(7, 90, "/tmp/a.txt", "user_temp")];
    let candidates = correlate(&trash, &audit);
    assert_eq!(candidates.len(), 1);
    assert_eq!(candidates[0].rule_id.as_deref(), Some("user_temp"));
    assert_eq!(candidates[0].run_id, Some(7));
}

#[test]
fn correlate_ignores_records_with_different_action_or_outcome() {
    let trash = vec![trash_entry("1", "/tmp/a.txt", Some(100))];
    let mut permanent = audit_record(1, 90, "/tmp/a.txt", "user_temp");
    permanent.action = DeleteAction::RemovePath;
    let mut failed = audit_record(2, 95, "/tmp/a.txt", "user_temp");
    failed.outcome = ItemOutcome::Failed { message: "boom".to_string() };
    let candidates = correlate(&trash, &[permanent, failed]);
    assert_eq!(candidates[0].rule_id, None);
    assert_eq!(candidates[0].run_id, None);
}

#[test]
fn correlate_leaves_unmatched_trash_entries_with_none() {
    let trash = vec![trash_entry("1", "/tmp/untracked.txt", Some(100))];
    let audit = vec![audit_record(1, 90, "/tmp/other.txt", "user_temp")];
    let candidates = correlate(&trash, &audit);
    assert_eq!(candidates[0].rule_id, None);
    assert_eq!(candidates[0].run_id, None);
}

#[test]
fn correlate_handles_empty_audit_log() {
    let trash = vec![trash_entry("1", "/tmp/a.txt", Some(100))];
    let candidates = correlate(&trash, &[]);
    assert_eq!(candidates.len(), 1);
    assert_eq!(candidates[0].rule_id, None);
}

#[test]
fn correlate_picks_the_closest_deletion_time_when_path_deleted_multiple_times() {
    let trash = vec![trash_entry("1", "/tmp/a.txt", Some(1000))];
    let audit = vec![
        audit_record(1, 500, "/tmp/a.txt", "old_run"),
        audit_record(2, 990, "/tmp/a.txt", "closest_run"),
    ];
    let candidates = correlate(&trash, &audit);
    assert_eq!(candidates[0].rule_id.as_deref(), Some("closest_run"));
    assert_eq!(candidates[0].run_id, Some(2));
}

#[test]
fn correlate_picks_the_newest_record_when_deleted_at_secs_is_unavailable() {
    let trash = vec![trash_entry("1", "/tmp/a.txt", None)];
    let audit = vec![
        audit_record(1, 500, "/tmp/a.txt", "older"),
        audit_record(2, 900, "/tmp/a.txt", "newer"),
    ];
    let candidates = correlate(&trash, &audit);
    assert_eq!(candidates[0].rule_id.as_deref(), Some("newer"));
}

#[test]
fn equally_near_records_are_told_apart_by_their_order() {
    let trash = vec![trash_entry("1", "/a", Some(100)), trash_entry("2", "/a", None)];
    let audit = vec![
        audit_record(1, 90, "/a", "first"),
        audit_record(2, 110, "/a", "second"),
        audit_record(3, 110, "/a", "third"),
    ];
    let candidates = correlate(&trash, &audit);
    assert_eq!(candidates[0].run_id, Some(1));
    assert_eq!(candidates[1].run_id, Some(3));
}

#[test]
fn candidates_for_run_filters_by_run_id() {
    let candidates = vec![
        RestoreCandidate {
            entry: trash_entry("1", "/tmp/a.txt", None),
            rule_id: Some("r".to_string()),
            run_id: Some(1),
        },
        RestoreCandidate {
            entry: trash_entry("2", "/tmp/b.txt", None),
            rule_id: Some("r".to_string()),
            run_id: Some(2),
        },
    ];
    let filtered = candidates_for_run(&candidates, 1);
    assert_eq!(filtered.len(), 1);
    assert_eq!(filtered[0].entry.id, "1");
}

struct FakePlatform {
    outcomes: HashMap<String, RestoreItemOutcome>,
    trash: Option<Vec<TrashEntry>>,
}

impl Platform for FakePlatform {
    fn known_dir(&self, _kind: KnownDir) -> Option<FilePath> {
        None
    }
    fn to_trash(&self, _path: &FilePath) -> Result<(), PlatformError> {
        Err(PlatformError::Unsupported("to_trash"))
    }
    fn requires_admin(&self, _path: &FilePath) -> bool {
        false
    }
    fn config_dir(&self) -> Option<FilePath> {
        None
    }
    fn is_elevated(&self) -> bool {
        false
    }
    fn elevate(&self, _args: &[String]) -> ElevateResult {
        Err(ElevateError::Unsupported)
    }
    fn is_file_in_use(&self, _path: &FilePath) -> Option<bool> {
        None
    }
    fn list_trash(&self) -> Result<Vec<TrashEntry>, PlatformError> {
        match &self.trash {
            Some(list) => Ok(list.clone()),
            None => Err(PlatformError::Unsupported("list_trash")),
        }
    }
    fn restore_from_trash(&self, ids: &[String]) -> Vec<(String, RestoreItemOutcome)> {
        ids.iter()
            .map(|id| {
                let outcome =
                    self.outcomes.get(id).cloned().unwrap_or(RestoreItemOutcome::NotFound);
                (id.clone(), outcome)
            })
            .collect()
    }
}

#[test]
fn restore_aggregates_mixed_outcomes_and_maps_back_to_paths() {
    let candidates = vec![
        RestoreCandidate {
            entry: trash_entry("1", "/tmp/ok.txt", None),
            rule_id: Some("r".to_string()),
            run_id: Some(1),
        },
        RestoreCandidate {
            entry: trash_entry("2", "/tmp/collide.txt", None),
            rule_id: Some("r".to_string()),
            run_id: Some(1),
        },
        RestoreCandidate {
            entry: trash_entry("3", "/tmp/gone.txt", None),
            rule_id: Some("r".to_string()),
            run_id: Some(1),
        },
    ];
    let mut outcomes = HashMap::new();
    outcomes.insert("1".to_string(), RestoreItemOutcome::Restored);
    outcomes.insert("2".to_string(), RestoreItemOutcome::SkippedCollision);
    let platform = FakePlatform { outcomes, trash: None };

    let outcome = restore(&platform, &candidates);
    assert_eq!(outcome.restored_count(), 1);
    assert_eq!(outcome.skipped_count(), 1);
    assert_eq!(outcome.not_found_count(), 1);
    assert_eq!(outcome.failed_count(), 0);

    let ok = outcome.results.iter().find(|(at, _)| *at == path("/tmp/ok.txt")).unwrap();
    assert_eq!(ok.1, RestoreItemOutcome::Restored);
}

#[test]
fn restore_does_not_stop_on_a_single_failure() {
    let candidates = vec![
        RestoreCandidate {
            entry: trash_entry("1", "/tmp/ok.txt", None),
            rule_id: None,
            run_id: None,
        },
        RestoreCandidate {
            entry: trash_entry("2", "/tmp/bad.txt", None),
            rule_id: None,
            run_id: None,
        },
    ];
    let mut outcomes = HashMap::new();
    outcomes.insert("1".to_string(), RestoreItemOutcome::Restored);
    outcomes.insert("2".to_string(), RestoreItemOutcome::Failed { message: "boom".to_string() });
    let platform = FakePlatform { outcomes, trash: None };

    let outcome = restore(&platform, &candidates);
    assert_eq!(outcome.restored_count(), 1);
    assert_eq!(outcome.failed_count(), 1);
}

#[test]
fn a_run_is_restored_by_its_number() {
    let mut outcomes = HashMap::new();
    outcomes.insert("1".to_string(), RestoreItemOutcome::Restored);
    outcomes.insert("2".to_string(), RestoreItemOutcome::Restored);
    let platform = FakePlatform {
        outcomes,
        trash: Some(vec![
            trash_entry("1", "/tmp/a.txt", Some(100)),
            trash_entry("2", "/tmp/b.txt", Some(100)),
        ]),
    };
    let log = vec![audit_record(7, 90, "/tmp/a.txt", "r"), audit_record(8, 90, "/tmp/b.txt", "r")];

    let outcome = restore_run(&platform, &log, 7);
    assert_eq!(outcome.results.len(), 1);
    assert_eq!(outcome.results[0].0, path("/tmp/a.txt"));
    assert_eq!(outcome.results[0].1, RestoreItemOutcome::Restored);
}

#[test]
fn a_trash_that_cannot_be_listed_is_one_failure() {
    let platform = FakePlatform { outcomes: HashMap::new(), trash: None };
    let outcome = restore_run(&platform, &[], 7);
    assert_eq!(outcome.failed_count(), 1);
    assert_eq!(outcome.results[0].0.text, "");

    let outcome = listing_failed(&PlatformError::Io("boom".to_string()));
    assert_eq!(
        outcome.results[0].1,
        RestoreItemOutcome::Failed { message: "I/O エラー: boom".to_string() }
    );
}
