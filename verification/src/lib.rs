//! Logic of `pc-cleaner`, a disk cleaner that reviews before it deletes.

pub mod audit;
pub mod breakdown;
pub mod cli;
pub mod config;
pub mod delete;
pub mod entry;
pub mod export;
pub mod format;
pub mod history;
pub mod i18n;
pub mod inspect;
pub mod panel;
pub mod path;
pub mod platform;
pub mod recommend;
pub mod restore;
pub mod rule;
pub mod ruleset;
pub mod scan;
pub mod schedule;
pub mod seqs;
pub mod session;
pub mod text;
pub mod textmap;
pub mod view;

pub use audit::AuditRecord;
pub use breakdown::{BreakdownItem, BucketBreakdown, CategoryBreakdown, SizeBucket};
pub use config::{Config, RulePref};
pub use delete::{
    execute, execute_with_progress, preview, DeleteAction, DeleteMethod, DeleteMode, DeleteOutcome,
    DeletePlan, DeleteProgress, DeleteRequest, DryRunReason, ExcludedEntry, ExclusionReason,
    ItemOutcome, ItemResult, PlannedDeletion,
};
pub use entry::{DuplicateInfo, ScanEntry};
pub use format::human_size;
pub use history::{History, HistoryEntry};
pub use i18n::Lang;
pub use platform::{should_relaunch, ElevateError, ElevateResult, KnownDir};
pub use recommend::Recommendation;
pub use restore::RestoreOutcome;
pub use rule::{MatchKind, Rule, Safety};
pub use ruleset::RuleSet;
pub use scan::{
    apply_rule_prefs, rules_for_safeties, safety_scope, scan, scan_pipeline,
    scan_pipeline_with_progress, scan_with_progress, ScanProgress, SkipReason,
};
