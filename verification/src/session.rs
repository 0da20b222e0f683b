//! The state of the window: what is shown, what is under way, and what each
//! event changes.
//!
//! Drawing, threads and files stand outside. They hand in what happened, and
//! perform what is handed back.

use crate::audit::{record_views, AuditRecord, AuditRecordView};
use crate::breakdown::{
    are_categories, breakdown_views, by_rule, by_size_bucket, category_views, from_plan,
    in_shown_order, is_bucket_of, plan_breakdown_covers_the_plan, planned_item, BucketBreakdown,
    CategoryBreakdown, CategoryView, SizeBucket, MIB,
};
use crate::cli::{first_kind, first_request};
use crate::config::{Config, RulePref};
use crate::delete::{
    excluded_views, mode_for, plan_for, preview, result_views, DeleteMethod, DeleteMode, DeleteOutcome,
    DeleteOutcomeView, DeletePlan, DeletePlanView, DeleteProgress, DeleteProgressView,
    DeleteRequest, ExclusionReason, ItemOutcome, ItemOutcomeView, ItemResultView, RequestKind,
};
use crate::entry::{entry_views, ScanEntry, ScanEntryView};
use crate::history::History;
use crate::i18n::Lang;
use crate::path::{FilePath, FilePathView};
use crate::platform::{ElevateError, ElevateResult, Platform, RestoreItemOutcome};
use crate::restore::{is_not_found, is_restored, is_skipped, RestoreOutcome};
use crate::rule::{keep_permitted, permitted_when, rule_views, Rule, RuleView};
use crate::ruleset::{count_own, is_own};
use crate::scan::{ScanProgress, ScanProgressView, SkipReason};
use crate::seqs::total;
use crate::text::{
    decimal, decimal_text, has_prefix, same_text, texts_of, trim, trimmed,
};
use crate::view::{
    exclusion_note, failure_views, note_views, reapply_pref_for_rule, to_exclusion_map,
    with_pref_of, FailureView, Scope,
};
use vstd::prelude::*;

verus! {

// ---- What is under way, and what came of it ----

/// What is under way.
#[derive(Debug, PartialEq, Eq)]
pub enum Task {
    /// Nothing.
    Idle,
    /// A scan.
    Scanning {
        /// The rule that is scanned now.
        rule_id: Option<String>,
        /// The files that were looked at.
        files_scanned: u64,
    },
    /// A deletion.
    Deleting {
        /// How many items are done.
        done: usize,
        /// Of how many.
        total: usize,
    },
    /// Restoring from the trash.
    Restoring,
}

/// The value of a [`Task`].
#[verifier::ext_equal]
pub enum TaskView {
    Idle,
    Scanning { rule_id: Option<Seq<char>>, files_scanned: u64 },
    Deleting { done: nat, total: nat },
    Restoring,
}

impl View for Task {
    type V = TaskView;

    open spec fn view(&self) -> TaskView {
        match self {
            Task::Idle => TaskView::Idle,
            Task::Scanning { rule_id, files_scanned } => TaskView::Scanning {
                rule_id: match rule_id {
                    Some(id) => Some(id@),
                    None => None,
                },
                files_scanned: *files_scanned,
            },
            Task::Deleting { done, total } => TaskView::Deleting {
                done: *done as nat,
                total: *total as nat,
            },
            Task::Restoring => TaskView::Restoring,
        }
    }
}

/// What is shown of a deletion.
#[derive(Debug, PartialEq, Eq)]
pub struct OutcomeSummary {
    /// How many items were deleted.
    pub deleted: usize,
    /// How many items failed.
    pub failed: usize,
    /// The bytes that were freed.
    pub freed_bytes: u64,
    /// Nothing was to be deleted.
    pub dry_run: bool,
    /// The failures.
    pub failures: Vec<(FilePath, String)>,
}

/// The value of an [`OutcomeSummary`].
#[verifier::ext_equal]
pub struct OutcomeSummaryView {
    pub deleted: nat,
    pub failed: nat,
    pub freed_bytes: nat,
    pub dry_run: bool,
    pub failures: Seq<FailureView>,
}

impl View for OutcomeSummary {
    type V = OutcomeSummaryView;

    open spec fn view(&self) -> OutcomeSummaryView {
        OutcomeSummaryView {
            deleted: self.deleted as nat,
            failed: self.failed as nat,
            freed_bytes: self.freed_bytes as nat,
            dry_run: self.dry_run,
            failures: failure_views(self.failures@),
        }
    }
}

/// The failure of an item, if it failed.
pub open spec fn item_failure() -> spec_fn(ItemResultView) -> Option<FailureView> {
    |r: ItemResultView|
        match r.outcome {
            ItemOutcomeView::Failed { message } => Some((r.path, message)),
            _ => None,
        }
}

/// What is shown of a deletion.
pub open spec fn summary_of(outcome: DeleteOutcomeView) -> OutcomeSummaryView {
    OutcomeSummaryView {
        deleted: outcome.deleted(),
        failed: outcome.failed(),
        freed_bytes: outcome.freed(),
        dry_run: outcome.mode.is_dry_run(),
        failures: outcome.results.filter_map(item_failure()),
    }
}

impl OutcomeSummary {
    /// What is shown of a deletion.
    pub fn from_outcome(outcome: &DeleteOutcome) -> (r: OutcomeSummary)
        requires
            outcome@.freed() <= u64::MAX,
        ensures
            r@ == summary_of(outcome@),
    {
        let ghost all = outcome@.results;
        let ghost f = item_failure();
        let mut failures: Vec<(FilePath, String)> = Vec::new();
        let mut i: usize = 0;
        assert(failure_views(failures@) =~= all.take(0).filter_map(f));
        while i < outcome.results.len()
            invariant
                i <= outcome.results@.len(),
                all == result_views(outcome.results@),
                f == item_failure(),
                failure_views(failures@) == all.take(i as int).filter_map(f),
            decreases outcome.results@.len() - i,
        {
            let ghost before = failures@;
            let result = &outcome.results[i];
            proof {
                all.lemma_filter_map_take_succ(f, i as int);
            }
            match &result.outcome {
                ItemOutcome::Failed { message } => {
                    failures.push((result.path.clone(), message.clone()));
                    assert(failure_views(failures@) =~= failure_views(before).push(
                        f(all[i as int])->0,
                    ));
                },
                _ => {
                    assert(f(all[i as int]) is None);
                },
            }
            i = i + 1;
            assert(failure_views(failures@) =~= all.take(i as int).filter_map(f));
        }
        assert(all.take(i as int) =~= all);
        OutcomeSummary {
            deleted: outcome.deleted_count(),
            failed: outcome.failed_count(),
            freed_bytes: outcome.freed_bytes(),
            dry_run: outcome.is_dry_run(),
            failures,
        }
    }
}

/// What is shown of restoring.
#[derive(Debug, PartialEq, Eq)]
pub struct RestoreSummary {
    /// How many items were restored.
    pub restored: usize,
    /// How many were left, since their place was taken.
    pub skipped: usize,
    /// How many were not in the trash any more.
    pub not_found: usize,
    /// How many failed.
    pub failed: usize,
    /// The failures.
    pub failures: Vec<(FilePath, String)>,
}

/// The value of a [`RestoreSummary`].
#[verifier::ext_equal]
pub struct RestoreSummaryView {
    pub restored: nat,
    pub skipped: nat,
    pub not_found: nat,
    pub failed: nat,
    pub failures: Seq<FailureView>,
}

impl View for RestoreSummary {
    type V = RestoreSummaryView;

    open spec fn view(&self) -> RestoreSummaryView {
        RestoreSummaryView {
            restored: self.restored as nat,
            skipped: self.skipped as nat,
            not_found: self.not_found as nat,
            failed: self.failed as nat,
            failures: failure_views(self.failures@),
        }
    }
}

/// The failure of a restored item, if it failed.
pub open spec fn restore_failure() -> spec_fn((FilePath, RestoreItemOutcome)) -> Option<
    FailureView,
> {
    |r: (FilePath, RestoreItemOutcome)|
        match r.1 {
            RestoreItemOutcome::Failed { message } => Some((r.0@, message@)),
            _ => None,
        }
}

/// What is shown of restoring.
pub open spec fn restore_summary_of(outcome: RestoreOutcome) -> RestoreSummaryView {
    RestoreSummaryView {
        restored: total(outcome.results@, is_restored()),
        skipped: total(outcome.results@, is_skipped()),
        not_found: total(outcome.results@, is_not_found()),
        failed: total(outcome.results@, crate::restore::is_failed()),
        failures: outcome.results@.filter_map(restore_failure()),
    }
}

impl RestoreSummary {
    /// What is shown of restoring.
    pub fn from_outcome(outcome: &RestoreOutcome) -> (r: RestoreSummary)
        ensures
            r@ == restore_summary_of(*outcome),
    {
        let ghost all = outcome.results@;
        let ghost f = restore_failure();
        let mut failures: Vec<(FilePath, String)> = Vec::new();
        let mut i: usize = 0;
        assert(failure_views(failures@) =~= all.take(0).filter_map(f));
        while i < outcome.results.len()
            invariant
                i <= outcome.results@.len(),
                all == outcome.results@,
                f == restore_failure(),
                failure_views(failures@) == all.take(i as int).filter_map(f),
            decreases outcome.results@.len() - i,
        {
            let ghost before = failures@;
            proof {
                all.lemma_filter_map_take_succ(f, i as int);
            }
            match &outcome.results[i].1 {
                RestoreItemOutcome::Failed { message } => {
                    failures.push((outcome.results[i].0.clone(), message.clone()));
                    assert(failure_views(failures@) =~= failure_views(before).push(
                        f(all[i as int])->0,
                    ));
                },
                _ => {
                    assert(f(all[i as int]) is None);
                },
            }
            i = i + 1;
            assert(failure_views(failures@) =~= all.take(i as int).filter_map(f));
        }
        assert(all.take(i as int) =~= all);
        RestoreSummary {
            restored: outcome.restored_count(),
            skipped: outcome.skipped_count(),
            not_found: outcome.not_found_count(),
            failed: outcome.failed_count(),
            failures,
        }
    }
}

// ---- The state ----

/// The state of the window.
#[derive(Debug)]
pub struct Session {
    /// The settings.
    pub config: Config,
    /// The runs so far.
    pub history: History,
    /// The deletion log.
    pub audit_records: Vec<AuditRecord>,
    /// The process has administrator rights.
    pub elevated: bool,
    /// The user is asked whether to restart as administrator.
    pub confirming_elevation: bool,
    /// The run that the user is asked about, whether to undo it.
    pub confirming_restore_run_id: Option<u64>,
    /// What is scanned.
    pub scope: Scope,
    /// The rules of the last scan.
    pub rules: Vec<Rule>,
    /// All rules, whatever is scanned.
    pub all_rules: Vec<Rule>,
    /// What the last scan found.
    pub entries: Vec<ScanEntry>,
    /// The rules that were not scanned.
    pub skipped: Vec<(String, SkipReason)>,
    /// What would be deleted.
    pub plan: Option<DeletePlan>,
    /// The plan does not show the state any more.
    pub plan_dirty: bool,
    /// What is shown beside excluded entries, by their places.
    pub exclusions: Vec<(FilePath, &'static str)>,
    /// What the rules account for in the plan.
    pub breakdown: Vec<CategoryBreakdown>,
    /// What the sizes account for in the plan.
    pub buckets: Vec<BucketBreakdown>,
    /// What is under way.
    pub task: Task,
    /// A worker has more to say.
    pub waiting: bool,
    /// Only preview.
    pub dry_run: bool,
    /// Delete for good.
    pub permanent: bool,
    /// What the user typed to confirm deletion for good.
    pub permanent_confirm_text: String,
    /// The user is asked whether to delete.
    pub confirming: bool,
    /// What came of the last deletion.
    pub last_outcome: Option<OutcomeSummary>,
    /// What came of the last restoring.
    pub last_restore_outcome: Option<RestoreSummary>,
    /// What the user is told.
    pub notices: Vec<String>,
    /// The first scan has begun.
    pub started: bool,
}

/// The value of a [`Session`].
#[verifier::ext_equal]
pub struct SessionView {
    pub config: Config,
    pub history: History,
    pub audit_records: Seq<AuditRecordView>,
    pub elevated: bool,
    pub confirming_elevation: bool,
    pub confirming_restore_run_id: Option<u64>,
    pub scope: Scope,
    pub rules: Seq<RuleView>,
    pub all_rules: Seq<RuleView>,
    pub entries: Seq<ScanEntryView>,
    pub skipped: Seq<(Seq<char>, SkipReason)>,
    pub plan: Option<DeletePlanView>,
    pub plan_dirty: bool,
    pub exclusions: Seq<(FilePathView, Seq<char>)>,
    pub breakdown: Seq<CategoryView>,
    pub buckets: Seq<BucketBreakdown>,
    pub task: TaskView,
    pub waiting: bool,
    pub dry_run: bool,
    pub permanent: bool,
    pub permanent_confirm_text: Seq<char>,
    pub confirming: bool,
    pub last_outcome: Option<OutcomeSummaryView>,
    pub last_restore_outcome: Option<RestoreSummaryView>,
    pub notices: Seq<Seq<char>>,
    pub started: bool,
}

/// The values of a list of skipped rules.
pub open spec fn skipped_views(skipped: Seq<(String, SkipReason)>) -> Seq<(Seq<char>, SkipReason)> {
    skipped.map_values(|s: (String, SkipReason)| (s.0@, s.1))
}

impl View for Session {
    type V = SessionView;

    open spec fn view(&self) -> SessionView {
        SessionView {
            config: self.config,
            history: self.history,
            audit_records: record_views(self.audit_records@),
            elevated: self.elevated,
            confirming_elevation: self.confirming_elevation,
            confirming_restore_run_id: self.confirming_restore_run_id,
            scope: self.scope,
            rules: rule_views(self.rules@),
            all_rules: rule_views(self.all_rules@),
            entries: entry_views(self.entries@),
            skipped: skipped_views(self.skipped@),
            plan: match self.plan {
                Some(p) => Some(p@),
                None => None,
            },
            plan_dirty: self.plan_dirty,
            exclusions: note_views(self.exclusions@),
            breakdown: category_views(self.breakdown@),
            buckets: self.buckets@,
            task: self.task@,
            waiting: self.waiting,
            dry_run: self.dry_run,
            permanent: self.permanent,
            permanent_confirm_text: self.permanent_confirm_text@,
            confirming: self.confirming,
            last_outcome: match self.last_outcome {
                Some(o) => Some(o@),
                None => None,
            },
            last_restore_outcome: match self.last_restore_outcome {
                Some(o) => Some(o@),
                None => None,
            },
            notices: texts_of(self.notices@),
            started: self.started,
        }
    }
}

impl SessionView {
    /// Something is under way.
    pub open spec fn is_busy(self) -> bool {
        self.task != TaskView::Idle
    }

    /// A scan begins: what was planned does not hold any more.
    pub open spec fn scanning(self) -> SessionView {
        SessionView {
            task: TaskView::Scanning { rule_id: None, files_scanned: 0 },
            plan: None,
            plan_dirty: true,
            exclusions: Seq::empty(),
            waiting: true,
            ..self
        }
    }

    /// The user is told something more.
    pub open spec fn telling(self, notice: Seq<char>) -> SessionView {
        SessionView { notices: self.notices.push(notice), ..self }
    }
}

/// What is said where the history cannot be read.
pub open spec fn history_unread(lang: Lang, error: Seq<char>) -> Seq<char> {
    match lang {
        Lang::Ja => "履歴の読み込みに失敗しました（"@ + error
            + "）。過去の実績が正しく表示されない場合があります。"@,
        Lang::En => "Failed to load history ("@ + error
            + "). Past results may not display correctly."@,
    }
}

/// What is said where the administrator rights that were asked for did not
/// arrive.
pub open spec fn not_elevated(lang: Lang) -> Seq<char> {
    match lang {
        Lang::Ja => "管理者権限で起動し直しましたが、昇格を確認できませんでした。管理者権限が必要な領域は対象外のままです。"@,
        Lang::En => "Restarted with administrator privileges, but elevation could not be confirmed. Areas requiring administrator privileges remain excluded."@,
    }
}

/// What is said where the deletion log cannot be read.
pub open spec fn log_unread(lang: Lang, error: Seq<char>) -> Seq<char> {
    match lang {
        Lang::Ja => "削除ログの読み込みに失敗しました（"@ + error + "）。"@,
        Lang::En => "Failed to load the deletion log ("@ + error + ")."@,
    }
}

/// What the user is told at the start.
pub open spec fn first_notices(
    lang: Lang,
    history: Option<Result<History, String>>,
    relaunched: bool,
    elevated: bool,
    records: Option<Result<Vec<AuditRecord>, String>>,
) -> Seq<Seq<char>> {
    let on_history = match history {
        Some(Err(e)) => seq![history_unread(lang, e@)],
        _ => Seq::empty(),
    };
    let on_rights = if relaunched && !elevated {
        seq![not_elevated(lang)]
    } else {
        Seq::empty()
    };
    let on_log = match records {
        Some(Err(e)) => seq![log_unread(lang, e@)],
        _ => Seq::empty(),
    };
    on_history + on_rights + on_log
}

fn in_brackets(before: &str, error: &str, after: &str) -> (r: String)
    ensures
        r@ == before@ + error@ + after@,
{
    let mut r = before.to_owned();
    r.append(error);
    r.append(after);
    r
}

fn history_unread_text(lang: Lang, error: &str) -> (r: String)
    ensures
        r@ == history_unread(lang, error@),
{
    match lang {
        Lang::Ja => in_brackets(
            "履歴の読み込みに失敗しました（",
            error,
            "）。過去の実績が正しく表示されない場合があります。",
        ),
        Lang::En => in_brackets(
            "Failed to load history (",
            error,
            "). Past results may not display correctly.",
        ),
    }
}

fn not_elevated_text(lang: Lang) -> (r: String)
    ensures
        r@ == not_elevated(lang),
{
    match lang {
        Lang::Ja => "管理者権限で起動し直しましたが、昇格を確認できませんでした。管理者権限が必要な領域は対象外のままです。".to_owned(),
        Lang::En => "Restarted with administrator privileges, but elevation could not be confirmed. Areas requiring administrator privileges remain excluded.".to_owned(),
    }
}

fn log_unread_text(lang: Lang, error: &str) -> (r: String)
    ensures
        r@ == log_unread(lang, error@),
{
    match lang {
        Lang::Ja => in_brackets("削除ログの読み込みに失敗しました（", error, "）。"),
        Lang::En => in_brackets("Failed to load the deletion log (", error, ")."),
    }
}

/// The runs that were read, or none.
pub open spec fn is_loaded_history(r: History, read: Option<Result<History, String>>) -> bool {
    match read {
        Some(Ok(h)) => r == h,
        _ => r.entries@.len() == 0,
    }
}

/// The records that were read, or none.
pub open spec fn loaded_records(read: Option<Result<Vec<AuditRecord>, String>>) -> Seq<
    AuditRecordView,
> {
    match read {
        Some(Ok(list)) => record_views(list@),
        _ => Seq::empty(),
    }
}

impl Session {
    /// The state at the start, with the settings `config`. `history` and
    /// `records` are what was read of the runs and of the deletion log, `None`
    /// where there is no place for them; `relaunched` says that the process was
    /// started again for administrator rights.
    pub fn new(
        config: Config,
        history: Option<Result<History, String>>,
        records: Option<Result<Vec<AuditRecord>, String>>,
        elevated: bool,
        relaunched: bool,
    ) -> (r: Session)
        ensures
            is_loaded_history(r.history, history),
            r@ == (SessionView {
                config,
                history: r.history,
                audit_records: loaded_records(records),
                elevated,
                confirming_elevation: false,
                confirming_restore_run_id: None,
                scope: Scope::SafeOnly,
                rules: Seq::empty(),
                all_rules: Seq::empty(),
                entries: Seq::empty(),
                skipped: Seq::empty(),
                plan: None,
                plan_dirty: true,
                exclusions: Seq::empty(),
                breakdown: Seq::empty(),
                buckets: Seq::empty(),
                task: TaskView::Idle,
                waiting: false,
                dry_run: false,
                permanent: false,
                permanent_confirm_text: Seq::empty(),
                confirming: false,
                last_outcome: None,
                last_restore_outcome: None,
                notices: first_notices(config.lang, history, relaunched, elevated, records),
                started: false,
            }),
    {
        let lang = config.lang;
        let mut notices: Vec<String> = Vec::new();
        let ghost h = history;
        let ghost rec = records;
        let history = match history {
            Some(Ok(history)) => history,
            Some(Err(e)) => {
                notices.push(history_unread_text(lang, e.as_str()));
                History::default()
            },
            None => History::default(),
        };
        if relaunched && !elevated {
            notices.push(not_elevated_text(lang));
        }
        let audit_records = match records {
            Some(Ok(list)) => list,
            Some(Err(e)) => {
                notices.push(log_unread_text(lang, e.as_str()));
                Vec::new()
            },
            None => Vec::new(),
        };
        let s = Session {
            config,
            history,
            audit_records,
            elevated,
            confirming_elevation: false,
            confirming_restore_run_id: None,
            scope: Scope::SafeOnly,
            rules: Vec::new(),
            all_rules: Vec::new(),
            entries: Vec::new(),
            skipped: Vec::new(),
            plan: None,
            plan_dirty: true,
            exclusions: Vec::new(),
            breakdown: Vec::new(),
            buckets: Vec::new(),
            task: Task::Idle,
            waiting: false,
            dry_run: false,
            permanent: false,
            permanent_confirm_text: String::new(),
            confirming: false,
            last_outcome: None,
            last_restore_outcome: None,
            notices,
            started: false,
        };
        assert(s@.notices =~= first_notices(lang, h, relaunched, elevated, rec));
        assert(s@.audit_records =~= loaded_records(rec));
        assert(s@.rules =~= Seq::empty());
        assert(s@.all_rules =~= Seq::empty());
        assert(s@.entries =~= Seq::empty());
        assert(s@.skipped =~= Seq::empty());
        assert(s@.exclusions =~= Seq::empty());
        assert(s@.breakdown =~= Seq::empty());
        assert(s@.buckets =~= Seq::empty());
        assert(s@.permanent_confirm_text =~= Seq::empty());
        s
    }

    /// Whether something is under way.
    pub fn is_busy(&self) -> (r: bool)
        ensures
            r == self@.is_busy(),
    {
        match self.task {
            Task::Idle => false,
            _ => true,
        }
    }

    /// Begins a scan.
    pub fn start_scan(&mut self)
        ensures
            final(self)@ == old(self)@.scanning(),
    {
        self.task = Task::Scanning { rule_id: None, files_scanned: 0 };
        self.plan = None;
        self.plan_dirty = true;
        self.exclusions = Vec::new();
        self.waiting = true;
        assert(self@.exclusions =~= Seq::empty());
    }

    /// Begins the first scan, unless it has begun. The result says whether it
    /// begins now.
    pub fn start(&mut self) -> (r: bool)
        ensures
            r == !old(self).started,
            final(self)@ == if old(self).started {
                old(self)@
            } else {
                (SessionView { started: true, ..old(self)@ }).scanning()
            },
    {
        if self.started {
            return false;
        }
        self.started = true;
        self.start_scan();
        true
    }
}

// ---- What workers say ----

/// The state after a scan reported how far it has come.
pub open spec fn after_scan_progress(s: SessionView, event: ScanProgressView) -> SessionView {
    match event {
        ScanProgressView::RuleStarted { rule_id, base } => match s.task {
            TaskView::Scanning { rule_id: _, files_scanned } => SessionView {
                task: TaskView::Scanning { rule_id: Some(rule_id), files_scanned },
                ..s
            },
            _ => s,
        },
        ScanProgressView::Walking { rule_id, files_scanned, bytes_scanned } => match s.task {
            TaskView::Scanning { rule_id: r, files_scanned: _ } => SessionView {
                task: TaskView::Scanning { rule_id: r, files_scanned: files_scanned as u64 },
                ..s
            },
            _ => s,
        },
        ScanProgressView::RuleSkipped { rule_id, reason } => SessionView {
            skipped: s.skipped.push((rule_id, reason)),
            ..s
        },
        _ => s,
    }
}

/// The notices that are not on the rule file.
pub open spec fn is_other_notice() -> spec_fn(Seq<char>) -> bool {
    |n: Seq<char>| !"ルール定義: "@.is_prefix_of(n)
}

/// The notice on something wrong in the rule file.
pub open spec fn rule_notice() -> spec_fn(Seq<char>) -> Seq<char> {
    |issue: Seq<char>| "ルール定義: "@ + issue
}

/// The notices after a scan: those on the rule file are new, the others stay.
pub open spec fn notices_after_scan(notices: Seq<Seq<char>>, issues: Seq<Seq<char>>) -> Seq<
    Seq<char>,
> {
    notices.filter(is_other_notice()) + issues.map_values(rule_notice())
}

fn other_notices(notices: &Vec<String>) -> (r: Vec<String>)
    ensures
        texts_of(r@) == texts_of(notices@).filter(is_other_notice()),
{
    let ghost all = texts_of(notices@);
    let ghost keep = is_other_notice();
    let mut r: Vec<String> = Vec::new();
    let mut i: usize = 0;
    assert(texts_of(r@) =~= all.take(0).filter(keep)) by {
        reveal(Seq::filter);
    }
    while i < notices.len()
        invariant
            i <= notices@.len(),
            all == texts_of(notices@),
            keep == is_other_notice(),
            texts_of(r@) == all.take(i as int).filter(keep),
        decreases notices@.len() - i,
    {
        let ghost before = r@;
        proof {
            assert(all.take(i + 1) =~= all.take(i as int).push(all[i as int]));
            all.take(i as int).lemma_filter_push(all[i as int], keep);
        }
        if !has_prefix(notices[i].as_str(), "ルール定義: ") {
            r.push(notices[i].clone());
            assert(texts_of(r@) =~= texts_of(before).push(all[i as int]));
        }
        i = i + 1;
    }
    assert(all.take(i as int) =~= all);
    r
}

fn push_rule_notices(notices: &mut Vec<String>, issues: &Vec<String>)
    ensures
        texts_of(final(notices)@) == texts_of(old(notices)@) + texts_of(issues@).map_values(
            rule_notice(),
        ),
{
    let ghost before = texts_of(notices@);
    let ghost all = texts_of(issues@);
    let mut i: usize = 0;
    assert(texts_of(notices@) =~= before + all.take(0).map_values(rule_notice()));
    while i < issues.len()
        invariant
            i <= issues@.len(),
            all == texts_of(issues@),
            texts_of(notices@) == before + all.take(i as int).map_values(rule_notice()),
        decreases issues@.len() - i,
    {
        let ghost so_far = notices@;
        let notice = "ルール定義: ".to_owned().concat(issues[i].as_str());
        let ghost shown = notice@;
        assert(shown == rule_notice()(all[i as int]));
        notices.push(notice);
        assert(texts_of(notices@) =~= texts_of(so_far).push(shown));
        assert(all.take(i + 1).map_values(rule_notice()) =~= all.take(i as int).map_values(
            rule_notice(),
        ).push(shown));
        i = i + 1;
        assert(texts_of(notices@) =~= before + all.take(i as int).map_values(rule_notice()));
    }
    assert(all.take(i as int) =~= all);
}

impl Session {
    /// A scan reported how far it has come.
    pub fn on_scan_progress(&mut self, event: &ScanProgress)
        ensures
            final(self)@ == after_scan_progress(old(self)@, event@),
    {
        let ghost before = self@;
        match event {
            ScanProgress::RuleStarted { rule_id, base: _ } => {
                let files: Option<u64> = match &self.task {
                    Task::Scanning { rule_id: _, files_scanned } => Some(*files_scanned),
                    _ => None,
                };
                match files {
                    Some(files_scanned) => {
                        self.task = Task::Scanning {
                            rule_id: Some(rule_id.clone()),
                            files_scanned,
                        };
                    },
                    None => {},
                }
            },
            ScanProgress::Walking { rule_id: _, files_scanned, bytes_scanned: _ } => {
                let rule: Option<Option<String>> = match &self.task {
                    Task::Scanning { rule_id, files_scanned: _ } => Some(
                        match rule_id {
                            Some(id) => Some(id.clone()),
                            None => None,
                        },
                    ),
                    _ => None,
                };
                match rule {
                    Some(rule_id) => {
                        self.task = Task::Scanning { rule_id, files_scanned: *files_scanned };
                    },
                    None => {},
                }
            },
            ScanProgress::RuleSkipped { rule_id, reason } => {
                self.skipped.push((rule_id.clone(), *reason));
                assert(self@.skipped =~= before.skipped.push((rule_id@, *reason)));
            },
            _ => {},
        }
    }

    /// A scan is done. It used the rules `rules` of `all_rules`, found
    /// `entries`, and had `issues` with the rule file.
    pub fn on_scan_done(
        &mut self,
        rules: Vec<Rule>,
        all_rules: Vec<Rule>,
        entries: Vec<ScanEntry>,
        issues: &Vec<String>,
    )
        ensures
            final(self)@ == (SessionView {
                rules: rule_views(rules@),
                all_rules: rule_views(all_rules@),
                entries: entry_views(entries@),
                notices: notices_after_scan(old(self)@.notices, texts_of(issues@)),
                task: TaskView::Idle,
                plan_dirty: true,
                waiting: false,
                ..old(self)@
            }),
    {
        self.rules = rules;
        self.all_rules = all_rules;
        self.entries = entries;
        let mut notices = other_notices(&self.notices);
        push_rule_notices(&mut notices, issues);
        self.notices = notices;
        self.task = Task::Idle;
        self.plan_dirty = true;
        self.waiting = false;
    }

    /// A deletion reported how far it has come.
    pub fn on_delete_progress(&mut self, event: &DeleteProgress)
        ensures
            final(self)@ == match event@ {
                DeleteProgressView::ItemFinished { path, outcome, freed, done, total } => (
                SessionView { task: TaskView::Deleting { done, total }, ..old(self)@ }),
                _ => old(self)@,
            },
    {
        match event {
            DeleteProgress::ItemFinished { path: _, outcome: _, freed: _, done, total } => {
                self.task = Task::Deleting { done: *done, total: *total };
            },
            _ => {},
        }
    }

    /// A deletion is done. What it was made from is gone, so the entries are
    /// too.
    pub fn on_delete_done(&mut self, outcome: &DeleteOutcome)
        requires
            outcome@.freed() <= u64::MAX,
        ensures
            final(self)@ == (SessionView {
                last_outcome: Some(summary_of(outcome@)),
                task: TaskView::Idle,
                entries: Seq::empty(),
                skipped: Seq::empty(),
                plan: None,
                plan_dirty: true,
                waiting: false,
                ..old(self)@
            }),
    {
        self.last_outcome = Some(OutcomeSummary::from_outcome(outcome));
        self.task = Task::Idle;
        self.entries = Vec::new();
        self.skipped = Vec::new();
        self.plan = None;
        self.plan_dirty = true;
        self.waiting = false;
        assert(self@.entries =~= Seq::empty());
        assert(self@.skipped =~= Seq::empty());
    }

    /// Restoring is done.
    pub fn on_restore_done(&mut self, outcome: &RestoreOutcome)
        ensures
            final(self)@ == (SessionView {
                last_restore_outcome: Some(restore_summary_of(*outcome)),
                task: TaskView::Idle,
                waiting: false,
                ..old(self)@
            }),
    {
        self.last_restore_outcome = Some(RestoreSummary::from_outcome(outcome));
        self.task = Task::Idle;
        self.waiting = false;
    }
}

// ---- The plan ----

/// The plan that shows the state. Deletion for good is never confirmed here.
pub open spec fn shown_plan<P: Platform + ?Sized>(platform: &P, s: SessionView) -> DeletePlanView {
    plan_for(platform, s.entries, s.rules, mode_for(s.config, first_kind(s.dry_run, s.permanent)))
}

/// What the rules and the sizes account for in a plan.
pub open spec fn accounts_for(
    breakdown: Seq<CategoryView>,
    buckets: Seq<BucketBreakdown>,
    plan: DeletePlanView,
) -> bool {
    let items = plan.items.map_values(planned_item());
    &&& are_categories(items, breakdown)
    &&& in_shown_order(breakdown)
    &&& buckets.len() == SizeBucket::in_order().len()
    &&& forall|k: int|
        0 <= k < buckets.len() ==> is_bucket_of(
            #[trigger] buckets[k],
            SizeBucket::in_order()[k],
            items,
        )
}

/// The plan that is confirmed, and what stands beside it.
#[derive(Debug, Clone, Copy, PartialEq, Eq, Structural)]
pub struct Confirmation {
    /// How many items there are.
    pub item_count: usize,
    /// Their size in bytes.
    pub total_size: u64,
    /// Nothing would be deleted.
    pub is_dry_run: bool,
    /// It would be deleted for good.
    pub is_permanent: bool,
    /// The user may proceed.
    pub can_proceed: bool,
}

/// The user may proceed with a plan: deletion for good takes the number of
/// items, typed in.
pub open spec fn may_proceed(plan: DeletePlanView, typed: Seq<char>) -> bool {
    plan.mode.method == DeleteMethod::Permanent ==> trimmed(typed) == decimal(plan.items.len())
}

impl Session {
    /// Whether the plan has to be made anew.
    pub fn needs_plan(&self) -> (r: bool)
        ensures
            r == (self@.plan_dirty && !self@.is_busy()),
    {
        self.plan_dirty && !self.is_busy()
    }

    /// The plan that shows the state.
    pub fn make_plan<P: Platform + ?Sized>(&self, platform: &P) -> (r: DeletePlan)
        ensures
            r@ == shown_plan(platform, self@),
    {
        let mode = DeleteMode::resolve(&self.config, first_request(self.dry_run, self.permanent));
        preview(platform, &self.entries, &self.rules, mode)
    }

    /// Shows `plan`, and what its rules and sizes account for.
    pub fn recompute_plan(&mut self, plan: DeletePlan)
        requires
            plan@.size_fits(),
            plan@.files_fit(),
        ensures
            final(self)@ == (SessionView {
                plan: Some(plan@),
                plan_dirty: false,
                exclusions: plan@.excluded.filter_map(exclusion_note(old(self)@.config.lang)),
                breakdown: final(self)@.breakdown,
                buckets: final(self)@.buckets,
                ..old(self)@
            }),
            accounts_for(final(self)@.breakdown, final(self)@.buckets, plan@),
    {
        proof {
            plan_breakdown_covers_the_plan(plan@);
        }
        self.exclusions = to_exclusion_map(plan.excluded(), self.config.lang);
        let items = from_plan(&plan);
        self.breakdown = by_rule(&items);
        self.buckets = by_size_bucket(&items);
        self.plan = Some(plan);
        self.plan_dirty = false;
    }

    /// Selects an entry or not.
    pub fn select(&mut self, index: usize, selected: bool)
        requires
            index < old(self).entries@.len(),
        ensures
            final(self)@ == (SessionView {
                entries: old(self)@.entries.update(
                    index as int,
                    ScanEntryView { selected, ..old(self)@.entries[index as int] },
                ),
                plan_dirty: true,
                ..old(self)@
            }),
    {
        let ghost before = self@.entries;
        let mut entry = self.entries[index].clone();
        entry.selected = selected;
        self.entries.set(index, entry);
        self.plan_dirty = true;
        assert(self@.entries =~= before.update(
            index as int,
            ScanEntryView { selected, ..before[index as int] },
        ));
    }

    /// Only previews, or not.
    pub fn set_dry_run(&mut self, dry_run: bool)
        ensures
            final(self)@ == (SessionView { dry_run, plan_dirty: true, ..old(self)@ }),
    {
        self.dry_run = dry_run;
        self.plan_dirty = true;
    }

    /// Asks for deletion for good, or not.
    pub fn set_permanent(&mut self, permanent: bool)
        ensures
            final(self)@ == (SessionView { permanent, plan_dirty: true, ..old(self)@ }),
    {
        self.permanent = permanent;
        self.plan_dirty = true;
    }

    /// Whether the plan can be confirmed: there is something in it, and nothing
    /// is under way.
    pub fn can_confirm(&self) -> (r: bool)
        ensures
            r == (!self@.is_busy() && self@.plan is Some && self@.plan->0.items.len() > 0),
    {
        match &self.plan {
            Some(plan) => !self.is_busy() && !plan.is_empty(),
            None => false,
        }
    }

    /// The rules whose wishes and thresholds can be set: all that are scanned
    /// with the rights at hand, whatever is scanned now.
    pub fn adjustable_rules(&self) -> (r: Vec<Rule>)
        ensures
            rule_views(r@) == self@.all_rules.filter(permitted_when(self.elevated)),
    {
        keep_permitted(&self.all_rules, self.elevated)
    }

    /// Whether the user is told that the recycle bin takes deletion for good.
    pub fn hints_at_recycle_bin(&self) -> (r: bool)
        ensures
            r == (!self.permanent && self@.plan is Some && exists|i: int|
                0 <= i < self@.plan->0.excluded.len() && (
                #[trigger] self@.plan->0.excluded[i]).reason
                    == ExclusionReason::RequiresPermanent),
    {
        if self.permanent {
            return false;
        }
        match &self.plan {
            Some(plan) => {
                let excluded = plan.excluded();
                let mut i: usize = 0;
                while i < excluded.len()
                    invariant
                        i <= excluded@.len(),
                        !self.permanent,
                        self@.plan == Some(plan@),
                        excluded_views(excluded@) == plan@.excluded,
                        forall|j: int|
                            0 <= j < i ==> (#[trigger] plan@.excluded[j]).reason
                                != ExclusionReason::RequiresPermanent,
                    decreases excluded@.len() - i,
                {
                    assert(plan@.excluded[i as int] == excluded@[i as int]@);
                    if excluded[i].reason == ExclusionReason::RequiresPermanent {
                        return true;
                    }
                    i = i + 1;
                }
                false
            },
            None => false,
        }
    }

    /// Asks the user to confirm the plan, where it can be confirmed.
    pub fn ask_confirmation(&mut self)
        ensures
            final(self)@ == if !old(self)@.is_busy() && old(self)@.plan is Some
                && old(self)@.plan->0.items.len() > 0 {
                SessionView { confirming: true, ..old(self)@ }
            } else {
                old(self)@
            },
    {
        if self.can_confirm() {
            self.confirming = true;
        }
    }

    /// What the user is asked to confirm. Where there is no plan any more,
    /// nothing is.
    pub fn confirmation(&mut self) -> (r: Option<Confirmation>)
        requires
            old(self)@.plan is Some ==> old(self)@.plan->0.size_fits(),
        ensures
            r is Some == (old(self).confirming && old(self)@.plan is Some),
            r is Some ==> r->0 == (Confirmation {
                item_count: old(self)@.plan->0.items.len() as usize,
                total_size: old(self)@.plan->0.total_size() as u64,
                is_dry_run: old(self)@.plan->0.mode.is_dry_run(),
                is_permanent: old(self)@.plan->0.mode.method == DeleteMethod::Permanent,
                can_proceed: may_proceed(
                    old(self)@.plan->0,
                    old(self)@.permanent_confirm_text,
                ),
            }),
            final(self)@ == (SessionView {
                confirming: old(self).confirming && old(self)@.plan is Some,
                ..old(self)@
            }),
    {
        if !self.confirming {
            return None;
        }
        let r = match &self.plan {
            Some(plan) => {
                let count: usize = plan.item_count();
                let is_permanent = plan.mode().method() == DeleteMethod::Permanent;
                let typed = trim(self.permanent_confirm_text.as_str());
                let can_proceed = !is_permanent || same_text(
                    typed.as_str(),
                    decimal_text(count as u64).as_str(),
                );
                Some(
                    Confirmation {
                        item_count: count,
                        total_size: plan.total_size(),
                        is_dry_run: plan.mode().is_dry_run(),
                        is_permanent,
                        can_proceed,
                    },
                )
            },
            None => None,
        };
        if r.is_none() {
            self.confirming = false;
        }
        r
    }

    /// Does not delete.
    pub fn cancel_confirmation(&mut self)
        ensures
            final(self)@ == (SessionView {
                confirming: false,
                permanent_confirm_text: Seq::empty(),
                ..old(self)@
            }),
    {
        self.confirming = false;
        self.permanent_confirm_text = String::new();
        assert(self@.permanent_confirm_text =~= Seq::empty());
    }
}

/// The plan that is executed once the user confirms: the one that was shown, or
/// for deletion for good one that is made for it.
pub open spec fn confirmed_plan<P: Platform + ?Sized>(platform: &P, s: SessionView) -> Option<
    DeletePlanView,
> {
    if !s.confirming || s.plan is None || !may_proceed(s.plan->0, s.permanent_confirm_text) {
        None
    } else if s.plan->0.mode.method == DeleteMethod::Permanent {
        Some(
            plan_for(
                platform,
                s.entries,
                s.rules,
                mode_for(s.config, RequestKind::PermanentConfirmed),
            ),
        )
    } else {
        s.plan
    }
}

/// The state once the user has confirmed a plan.
pub open spec fn after_confirming(s: SessionView, plan: DeletePlanView) -> SessionView {
    SessionView {
        confirming: false,
        permanent_confirm_text: Seq::empty(),
        plan: if s.plan->0.mode.method == DeleteMethod::Permanent {
            s.plan
        } else {
            None
        },
        permanent: false,
        task: TaskView::Deleting { done: 0, total: plan.items.len() },
        waiting: true,
        ..s
    }
}

impl Session {
    /// The user confirms the plan. The plan to execute is handed back, and
    /// deletion for good is not asked for any more. Where the user may not
    /// proceed, nothing happens.
    pub fn proceed<P: Platform + ?Sized>(&mut self, platform: &P) -> (r: Option<DeletePlan>)
        ensures
            match r {
                Some(plan) => confirmed_plan(platform, old(self)@) == Some(plan@) && final(self)@
                    == after_confirming(old(self)@, plan@),
                None => confirmed_plan(platform, old(self)@) is None && final(self)@ == old(self)@,
            },
    {
        if !self.confirming {
            return None;
        }
        let is_permanent = match &self.plan {
            Some(plan) => {
                let is_permanent = plan.mode().method() == DeleteMethod::Permanent;
                let typed = trim(self.permanent_confirm_text.as_str());
                let count = decimal_text(plan.item_count() as u64);
                if is_permanent && !same_text(typed.as_str(), count.as_str()) {
                    return None;
                }
                is_permanent
            },
            None => return None,
        };
        let plan = if is_permanent {
            let mode = DeleteMode::resolve(&self.config, DeleteRequest::permanent_confirmed());
            preview(platform, &self.entries, &self.rules, mode)
        } else {
            match self.plan.take() {
                Some(plan) => plan,
                None => return None,
            }
        };
        self.confirming = false;
        self.permanent_confirm_text = String::new();
        self.permanent = false;
        self.task = Task::Deleting { done: 0, total: plan.item_count() };
        self.waiting = true;
        assert(self@.permanent_confirm_text =~= Seq::empty());
        Some(plan)
    }
}

/// The window deletes for good only where the user was asked, and typed the
/// number of items of a plan that asks for it.
pub proof fn permanent_needs_the_count<P: Platform + ?Sized>(platform: &P, s: SessionView)
    requires
        confirmed_plan(platform, s) is Some,
        !confirmed_plan(platform, s)->0.mode.is_dry_run(),
        confirmed_plan(platform, s)->0.mode.method == DeleteMethod::Permanent,
    ensures
        s.confirming,
        s.plan->0.mode.method == DeleteMethod::Permanent,
        trimmed(s.permanent_confirm_text) == decimal(s.plan->0.items.len()),
{
}

/// The plan that is shown never deletes for good: it only previews that.
pub proof fn shown_plans_are_not_final<P: Platform + ?Sized>(platform: &P, s: SessionView)
    ensures
        shown_plan(platform, s).mode.is_dry_run() || shown_plan(platform, s).mode.method
            != DeleteMethod::Permanent,
{
}

// ---- Settings ----

/// A setting that the user changes.
#[derive(Debug, Clone, Copy, PartialEq, Eq, Structural)]
pub enum Setting {
    /// Delete by way of the trash.
    UseTrash(bool),
    /// Only preview unless asked to delete.
    DryRunDefault(bool),
    /// Keep a deletion log.
    AuditLog(bool),
    /// Look for duplicates.
    DetectDuplicates(bool),
    /// Read the rule file.
    UserRules(bool),
    /// The size from which a file is called large, in mebibytes.
    LargeFileMib(u64),
    /// The language.
    Language(Lang),
}

impl Setting {
    /// What changes is seen only after another scan.
    pub open spec fn needs_scan(self) -> bool {
        self is DetectDuplicates || self is UserRules || self is LargeFileMib || self is Language
    }

    /// What changes bears on the plan.
    pub open spec fn bears_on_plan(self) -> bool {
        self is UseTrash || self is DryRunDefault
    }

    /// The value can be set: a size that fits.
    pub open spec fn is_valid(self) -> bool {
        self matches Setting::LargeFileMib(mib) ==> mib <= MAX_LARGE_FILE_MIB
    }
}

/// The largest size, in mebibytes, that a user can call large.
pub const MAX_LARGE_FILE_MIB: u64 = 1_048_576;

/// The settings after one was changed.
pub open spec fn changed_config(config: Config, setting: Setting) -> Config {
    match setting {
        Setting::UseTrash(b) => Config { use_trash: b, ..config },
        Setting::DryRunDefault(b) => Config { dry_run_default: b, ..config },
        Setting::AuditLog(b) => Config { audit_log_enabled: b, ..config },
        Setting::DetectDuplicates(b) => Config { detect_duplicates: b, ..config },
        Setting::UserRules(b) => Config { user_rules_enabled: b, ..config },
        Setting::LargeFileMib(mib) => Config {
            large_file_threshold_bytes: (mib * MIB) as u64,
            ..config
        },
        Setting::Language(lang) => Config { lang, ..config },
    }
}

/// `new` is `old` with `pref` for the rule `rule_id`.
pub open spec fn has_new_pref(
    old_config: Config,
    new_config: Config,
    rule_id: Seq<char>,
    pref: RulePref,
) -> bool {
    &&& new_config == Config { rule_prefs: new_config.rule_prefs, ..old_config }
    &&& forall|k: Seq<char>| #[trigger]
        new_config.rule_prefs.value(k) == if k == rule_id {
            Some(pref)
        } else {
            old_config.rule_prefs.value(k)
        }
}

/// `new` is `old` with the threshold `days` for the rule `rule_id`.
pub open spec fn has_new_threshold(
    old_config: Config,
    new_config: Config,
    rule_id: Seq<char>,
    days: u64,
) -> bool {
    &&& new_config == Config { age_thresholds: new_config.age_thresholds, ..old_config }
    &&& forall|k: Seq<char>| #[trigger]
        new_config.age_thresholds.value(k) == if k == rule_id {
            Some(days)
        } else {
            old_config.age_thresholds.value(k)
        }
}

/// The size from which a file is called large, in mebibytes; one at least.
pub open spec fn large_mib(config: Config) -> u64 {
    if config.large_file_threshold_bytes < MIB {
        1
    } else {
        config.large_file_threshold_bytes / MIB
    }
}

fn apply_setting(config: &mut Config, setting: Setting)
    requires
        setting.is_valid(),
    ensures
        *final(config) == changed_config(*old(config), setting),
{
    match setting {
        Setting::UseTrash(b) => {
            config.use_trash = b;
        },
        Setting::DryRunDefault(b) => {
            config.dry_run_default = b;
        },
        Setting::AuditLog(b) => {
            config.audit_log_enabled = b;
        },
        Setting::DetectDuplicates(b) => {
            config.detect_duplicates = b;
        },
        Setting::UserRules(b) => {
            config.user_rules_enabled = b;
        },
        Setting::LargeFileMib(mib) => {
            config.large_file_threshold_bytes = mib * MIB;
        },
        Setting::Language(lang) => {
            config.lang = lang;
        },
    }
}

impl Session {
    /// Changes a setting. The result says whether a scan begins.
    #[verifier::spinoff_prover]
    pub fn change_setting(&mut self, setting: Setting) -> (r: bool)
        requires
            setting.is_valid(),
        ensures
            r == setting.needs_scan(),
            final(self)@ == ({
                let changed = SessionView {
                    config: changed_config(old(self)@.config, setting),
                    ..old(self)@
                };
                if setting.needs_scan() {
                    changed.scanning()
                } else if setting.bears_on_plan() {
                    SessionView { plan_dirty: true, ..changed }
                } else {
                    changed
                }
            }),
    {
        let ghost changed = SessionView {
            config: changed_config(self@.config, setting),
            ..self@
        };
        apply_setting(&mut self.config, setting);
        assert(self@ == changed);
        match setting {
            Setting::UseTrash(_) | Setting::DryRunDefault(_) => {
                self.plan_dirty = true;
                false
            },
            Setting::AuditLog(_) => false,
            _ => {
                self.start_scan();
                true
            },
        }
    }

    /// The size from which a file is called large, in mebibytes; one at least.
    pub fn large_file_mib(&self) -> (r: u64)
        ensures
            r == large_mib(self@.config),
    {
        if self.config.large_file_threshold_bytes < MIB {
            1
        } else {
            self.config.large_file_threshold_bytes / MIB
        }
    }

    /// What the user wants of a rule from now on. Its entries are selected
    /// accordingly, and those of other rules stay as they are.
    pub fn change_pref(&mut self, rule_id: &str, pref: RulePref)
        ensures
            has_new_pref(old(self)@.config, final(self)@.config, rule_id@, pref),
            final(self)@ == (SessionView {
                config: final(self)@.config,
                entries: old(self)@.entries.map_values(
                    with_pref_of(rule_id@, final(self)@.config),
                ),
                plan_dirty: true,
                ..old(self)@
            }),
    {
        self.config.rule_prefs.insert(rule_id.to_owned(), pref);
        reapply_pref_for_rule(&mut self.entries, rule_id, &self.config);
        self.plan_dirty = true;
    }

    /// The age threshold of a rule from now on. It bears on what is found, so a
    /// scan begins.
    pub fn change_threshold(&mut self, rule_id: &str, days: u64)
        ensures
            has_new_threshold(old(self)@.config, final(self)@.config, rule_id@, days),
            final(self)@ == (SessionView {
                config: final(self)@.config,
                ..old(self)@
            }).scanning(),
    {
        self.config.age_thresholds.insert(rule_id.to_owned(), days);
        self.start_scan();
    }

    /// What is scanned from now on. A scan begins.
    pub fn change_scope(&mut self, scope: Scope)
        ensures
            final(self)@ == (SessionView { scope, ..old(self)@ }).scanning(),
    {
        self.scope = scope;
        self.start_scan();
    }
}

// ---- Files, rights and undoing ----

/// What is said once the settings were to be saved. `None` where there is no
/// place for them.
pub open spec fn save_notice(lang: Lang, result: Option<Result<(), String>>) -> Option<Seq<char>> {
    match result {
        Some(Ok(_)) => None,
        Some(Err(e)) => Some(
            match lang {
                Lang::Ja => "設定の保存に失敗しました: "@ + e@,
                Lang::En => "Failed to save settings: "@ + e@,
            },
        ),
        None => Some(
            match lang {
                Lang::Ja => "この環境では設定の保存先を特定できません。"@,
                Lang::En => "Could not determine where to save settings on this system."@,
            },
        ),
    }
}

/// What is said once a run was to be recorded.
pub open spec fn history_notice(lang: Lang, result: Option<Result<History, String>>) -> Option<
    Seq<char>,
> {
    match result {
        Some(Ok(_)) => None,
        Some(Err(e)) => Some(
            match lang {
                Lang::Ja => "履歴の記録に失敗しました: "@ + e@,
                Lang::En => "Failed to record history: "@ + e@,
            },
        ),
        None => Some(
            match lang {
                Lang::Ja => "この環境では履歴の保存先を特定できません。"@,
                Lang::En => "Could not determine where to save history on this system."@,
            },
        ),
    }
}

/// What is said once the deletion log was to be added to.
pub open spec fn log_notice(
    lang: Lang,
    result: Option<Result<Vec<AuditRecord>, String>>,
) -> Option<Seq<char>> {
    match result {
        Some(Ok(_)) => None,
        Some(Err(e)) => Some(
            match lang {
                Lang::Ja => "削除ログの記録に失敗しました: "@ + e@,
                Lang::En => "Failed to record the deletion log: "@ + e@,
            },
        ),
        None => Some(
            match lang {
                Lang::Ja => "この環境では削除ログの保存先を特定できません。"@,
                Lang::En => "Could not determine where to save the deletion log on this system."@,
            },
        ),
    }
}

/// What is said once the process was to be started again as administrator.
pub open spec fn elevate_notice(lang: Lang, result: ElevateResult) -> Option<Seq<char>> {
    match result {
        Ok(_) => None,
        Err(ElevateError::Cancelled) => Some(
            match lang {
                Lang::Ja => "管理者権限での実行はキャンセルされました。"@,
                Lang::En => "Running with administrator privileges was cancelled."@,
            },
        ),
        Err(e) => Some(
            match lang {
                Lang::Ja => "管理者権限で実行し直せませんでした: "@ + e.text(),
                Lang::En => "Failed to restart as administrator: "@ + e.text(),
            },
        ),
    }
}

/// The state after something was said, or nothing.
pub open spec fn telling_maybe(s: SessionView, notice: Option<Seq<char>>) -> SessionView {
    match notice {
        Some(n) => s.telling(n),
        None => s,
    }
}

impl Session {
    fn tell(&mut self, notice: String)
        ensures
            final(self)@ == old(self)@.telling(notice@),
    {
        let ghost before = self@;
        self.notices.push(notice);
        assert(self@.notices =~= before.notices.push(notice@));
    }

    fn tell_either(&mut self, ja: &str, en: &str, detail: &str)
        ensures
            final(self)@ == old(self)@.telling(
                match old(self)@.config.lang {
                    Lang::Ja => ja@ + detail@,
                    Lang::En => en@ + detail@,
                },
            ),
    {
        let notice = match self.config.lang {
            Lang::Ja => ja.to_owned().concat(detail),
            Lang::En => en.to_owned().concat(detail),
        };
        self.tell(notice);
    }

    fn tell_plainly(&mut self, ja: &str, en: &str)
        ensures
            final(self)@ == old(self)@.telling(
                match old(self)@.config.lang {
                    Lang::Ja => ja@,
                    Lang::En => en@,
                },
            ),
    {
        let notice = match self.config.lang {
            Lang::Ja => ja.to_owned(),
            Lang::En => en.to_owned(),
        };
        self.tell(notice);
    }

    /// The settings were to be saved.
    pub fn on_saved(&mut self, result: &Option<Result<(), String>>)
        ensures
            final(self)@ == telling_maybe(
                old(self)@,
                save_notice(old(self)@.config.lang, *result),
            ),
    {
        match result {
            Some(Ok(_)) => {},
            Some(Err(e)) => {
                self.tell_either("設定の保存に失敗しました: ", "Failed to save settings: ", e.as_str());
            },
            None => {
                self.tell_plainly(
                    "この環境では設定の保存先を特定できません。",
                    "Could not determine where to save settings on this system.",
                );
            },
        }
    }

    /// A run was to be recorded. `result` is what the history is now.
    pub fn record_history(&mut self, result: Option<Result<History, String>>)
        ensures
            final(self)@ == telling_maybe(
                SessionView {
                    history: match result {
                        Some(Ok(h)) => h,
                        _ => old(self)@.history,
                    },
                    ..old(self)@
                },
                history_notice(old(self)@.config.lang, result),
            ),
    {
        match result {
            Some(Ok(history)) => {
                self.history = history;
            },
            Some(Err(e)) => {
                self.tell_either("履歴の記録に失敗しました: ", "Failed to record history: ", e.as_str());
            },
            None => {
                self.tell_plainly(
                    "この環境では履歴の保存先を特定できません。",
                    "Could not determine where to save history on this system.",
                );
            },
        }
    }

    /// The deletion log was to be added to. `result` is what was added; it is
    /// shown where the log is kept.
    pub fn record_audit(&mut self, result: Option<Result<Vec<AuditRecord>, String>>)
        ensures
            final(self)@ == telling_maybe(
                SessionView {
                    audit_records: match result {
                        Some(Ok(records)) => if old(self)@.config.audit_log_enabled {
                            old(self)@.audit_records + record_views(records@)
                        } else {
                            old(self)@.audit_records
                        },
                        _ => old(self)@.audit_records,
                    },
                    ..old(self)@
                },
                log_notice(old(self)@.config.lang, result),
            ),
    {
        let ghost before = self@;
        match result {
            Some(Ok(records)) => {
                if self.config.audit_log_enabled {
                    let ghost added = record_views(records@);
                    let mut records = records;
                    self.audit_records.append(&mut records);
                    assert(self@.audit_records =~= before.audit_records + added);
                }
            },
            Some(Err(e)) => {
                self.tell_either(
                    "削除ログの記録に失敗しました: ",
                    "Failed to record the deletion log: ",
                    e.as_str(),
                );
            },
            None => {
                self.tell_plainly(
                    "この環境では削除ログの保存先を特定できません。",
                    "Could not determine where to save the deletion log on this system.",
                );
            },
        }
    }

    /// Whether a deletion that came to `outcome` is recorded: not where nothing
    /// was to be deleted.
    pub fn is_recorded(&self, outcome: &DeleteOutcome) -> (r: bool)
        ensures
            r == !outcome@.mode.is_dry_run(),
    {
        !outcome.is_dry_run()
    }

    /// How many rules are the user's own.
    pub fn user_rule_count(&self) -> (r: usize)
        ensures
            r == self@.all_rules.filter(is_own()).len(),
    {
        count_own(&self.all_rules)
    }

    /// Shows the outcome of the last deletion no longer.
    pub fn clear_outcome(&mut self)
        ensures
            final(self)@ == (SessionView { last_outcome: None, ..old(self)@ }),
    {
        self.last_outcome = None;
    }

    /// Takes what the user has typed to confirm deletion for good.
    pub fn type_confirmation(&mut self, typed: String)
        ensures
            final(self)@ == (SessionView { permanent_confirm_text: typed@, ..old(self)@ }),
    {
        self.permanent_confirm_text = typed;
    }

    /// Asks the user whether to start again as administrator, where that is to be
    /// had and nothing is under way.
    pub fn ask_elevation(&mut self)
        ensures
            final(self)@ == if old(self)@.elevated || old(self)@.is_busy() {
                old(self)@
            } else {
                SessionView { confirming_elevation: true, ..old(self)@ }
            },
    {
        if !self.elevated && !self.is_busy() {
            self.confirming_elevation = true;
        }
    }

    /// Does not start again as administrator.
    pub fn cancel_elevation(&mut self)
        ensures
            final(self)@ == (SessionView { confirming_elevation: false, ..old(self)@ }),
    {
        self.confirming_elevation = false;
    }

    /// The process was to be started again as administrator. The result says
    /// whether this window closes.
    pub fn on_elevated(&mut self, result: &ElevateResult) -> (r: bool)
        ensures
            r == (result is Ok),
            final(self)@ == telling_maybe(
                SessionView { confirming_elevation: false, ..old(self)@ },
                elevate_notice(old(self)@.config.lang, *result),
            ),
    {
        self.confirming_elevation = false;
        match result {
            Ok(_) => true,
            Err(ElevateError::Cancelled) => {
                self.tell_plainly(
                    "管理者権限での実行はキャンセルされました。",
                    "Running with administrator privileges was cancelled.",
                );
                false
            },
            Err(e) => {
                self.tell_either(
                    "管理者権限で実行し直せませんでした: ",
                    "Failed to restart as administrator: ",
                    e.message().as_str(),
                );
                false
            },
        }
    }

    /// Asks the user whether to undo a run. A run without a number cannot be
    /// undone.
    pub fn ask_restore(&mut self, run_id: u64)
        ensures
            final(self)@ == if run_id == 0 {
                old(self)@
            } else {
                SessionView { confirming_restore_run_id: Some(run_id), ..old(self)@ }
            },
    {
        if run_id != 0 {
            self.confirming_restore_run_id = Some(run_id);
        }
    }

    /// Begins to undo the run that the user was asked about, and hands it back.
    pub fn start_restore(&mut self) -> (r: Option<u64>)
        ensures
            r == old(self).confirming_restore_run_id,
            final(self)@ == if r is None {
                old(self)@
            } else {
                SessionView {
                    confirming_restore_run_id: None,
                    last_restore_outcome: None,
                    task: TaskView::Restoring,
                    waiting: true,
                    ..old(self)@
                }
            },
    {
        match self.confirming_restore_run_id {
            Some(run_id) => {
                self.confirming_restore_run_id = None;
                self.last_restore_outcome = None;
                self.task = Task::Restoring;
                self.waiting = true;
                Some(run_id)
            },
            None => None,
        }
    }

    /// Does not undo a run.
    pub fn cancel_restore(&mut self)
        ensures
            final(self)@ == (SessionView { confirming_restore_run_id: None, ..old(self)@ }),
    {
        self.confirming_restore_run_id = None;
    }
}

// ---- What the session does ----

/// The confirmed plan is carried out if and only if a plan is shown and being
/// confirmed, and where it deletes for good, the number of its items was typed.
pub proof fn when_a_plan_is_carried_out<P: Platform + ?Sized>(platform: &P, s: SessionView)
    ensures
        confirmed_plan(platform, s) is Some <==> s.confirming && s.plan is Some && (
        s.plan->0.mode.method !is Permanent || trimmed(s.permanent_confirm_text) == decimal(
            s.plan->0.items.len(),
        )),
        confirmed_plan(platform, s) is Some && s.plan->0.mode.method !is Permanent
            ==> confirmed_plan(platform, s) == s.plan,
{
}

/// Once a plan is confirmed, the question is closed, what was typed is forgotten,
/// deleting for good is switched off again, and the items are counted from none.
pub proof fn what_confirming_leaves(s: SessionView, plan: DeletePlanView)
    ensures
        ({
            let after = after_confirming(s, plan);
            &&& !after.confirming
            &&& after.permanent_confirm_text.len() == 0
            &&& !after.permanent
            &&& after.task == (TaskView::Deleting { done: 0, total: plan.items.len() })
            &&& after.waiting
            &&& after.entries == s.entries
            &&& after.rules == s.rules
            &&& after.config == s.config
            &&& after.history == s.history
            &&& after.notices == s.notices
            &&& after.dry_run == s.dry_run
        }),
{
}

/// A scan forgets the plan that was shown, and starts with nothing counted; what
/// was found before, the settings and the notices stay until it is done.
pub proof fn what_a_scan_starts_with(s: SessionView)
    ensures
        s.scanning().task == (TaskView::Scanning { rule_id: None, files_scanned: 0 }),
        s.scanning().plan is None,
        s.scanning().plan_dirty,
        s.scanning().waiting,
        s.scanning().exclusions.len() == 0,
        s.scanning().is_busy(),
        s.scanning().entries == s.entries,
        s.scanning().config == s.config,
        s.scanning().notices == s.notices,
{
}

/// Progress of a scan changes what is told of the scan while there is one, and
/// each rule that is skipped is noted. Nothing else changes.
pub proof fn what_progress_changes(s: SessionView, event: ScanProgressView)
    ensures
        ({
            let after = after_scan_progress(s, event);
            &&& after == (SessionView { task: after.task, skipped: after.skipped, ..s })
            &&& event !is RuleSkipped ==> after.skipped == s.skipped
            &&& event is RuleSkipped ==> after.task == s.task && after.skipped.len()
                == s.skipped.len() + 1 && after.skipped.drop_last() == s.skipped
            &&& event matches ScanProgressView::RuleSkipped { rule_id, reason }
                ==> after.skipped.last() == (rule_id, reason)
            &&& s.task !is Scanning ==> after.task == s.task
            &&& s.task is Scanning ==> after.task is Scanning
            &&& event matches ScanProgressView::RuleStarted { rule_id, base } ==> (
            s.task matches TaskView::Scanning { rule_id: was, files_scanned } ==> after.task == (
            TaskView::Scanning { rule_id: Some(rule_id), files_scanned }))
        }),
{
    let after = after_scan_progress(s, event);
    if event is RuleSkipped {
        assert(after.skipped.drop_last() =~= s.skipped);
    }
}

/// After a scan the notices on the rule file are those of that scan, behind all
/// other notices, which stay in their order.
pub proof fn which_notices_stay(notices: Seq<Seq<char>>, issues: Seq<Seq<char>>, k: int)
    ensures
        ({
            let after = notices_after_scan(notices, issues);
            let others = after.len() - issues.len();
            &&& others >= 0
            &&& 0 <= k < issues.len() ==> after[others + k] == "ルール定義: "@ + issues[k]
            &&& after.take(others) == notices.filter(is_other_notice())
            &&& 0 <= k < notices.len() ==> (after.take(others).contains(notices[k]) <==> !(
            "ルール定義: "@.is_prefix_of(notices[k])))
        }),
{
    let kept = notices.filter(is_other_notice());
    let after = notices_after_scan(notices, issues);
    assert(after.take(after.len() - issues.len()) =~= kept);
    if 0 <= k < notices.len() {
        if is_other_notice()(notices[k]) {
            notices.lemma_filter_contains(is_other_notice(), k);
        }
        if kept.contains(notices[k]) {
            let i = choose|i: int| 0 <= i < kept.len() && kept[i] == notices[k];
            notices.lemma_filter_pred(is_other_notice(), i);
        }
    }
}

/// A setting changes what it is about, and nothing else.
pub proof fn what_a_setting_changes(config: Config, setting: Setting)
    requires
        setting.is_valid(),
    ensures
        ({
            let after = changed_config(config, setting);
            &&& after.rule_prefs == config.rule_prefs
            &&& after.age_thresholds == config.age_thresholds
            &&& after.use_trash == (if let Setting::UseTrash(b) = setting {
                b
            } else {
                config.use_trash
            })
            &&& after.dry_run_default == (if let Setting::DryRunDefault(b) = setting {
                b
            } else {
                config.dry_run_default
            })
            &&& after.audit_log_enabled == (if let Setting::AuditLog(b) = setting {
                b
            } else {
                config.audit_log_enabled
            })
            &&& after.detect_duplicates == (if let Setting::DetectDuplicates(b) = setting {
                b
            } else {
                config.detect_duplicates
            })
            &&& after.user_rules_enabled == (if let Setting::UserRules(b) = setting {
                b
            } else {
                config.user_rules_enabled
            })
            &&& after.lang == (if let Setting::Language(lang) = setting {
                lang
            } else {
                config.lang
            })
            &&& after.large_file_threshold_bytes == (if let Setting::LargeFileMib(mib) = setting {
                mib * 1024 * 1024
            } else {
                config.large_file_threshold_bytes as int
            })
        }),
{
    if let Setting::LargeFileMib(mib) = setting {
        assert(mib * MIB <= u64::MAX);
        assert(mib * MIB == mib * 1024 * 1024);
    }
}

/// The size from which entries are called large is told in whole mebibytes, one
/// at least. A size that was set is told as it was set.
pub proof fn how_the_large_size_is_told(config: Config, mib: u64)
    requires
        1 <= mib <= MAX_LARGE_FILE_MIB,
    ensures
        large_mib(config) >= 1,
        config.large_file_threshold_bytes >= 1024 * 1024 ==> large_mib(config) * 1024 * 1024
            <= config.large_file_threshold_bytes < (large_mib(config) + 1) * 1024 * 1024,
        config.large_file_threshold_bytes < 1024 * 1024 ==> large_mib(config) == 1,
        large_mib(changed_config(config, Setting::LargeFileMib(mib))) == mib,
{
    assert(mib * MIB <= u64::MAX);
}

/// A summary counts what was deleted and what failed, and lists each failure.
pub proof fn what_a_summary_tells(outcome: DeleteOutcomeView)
    ensures
        summary_of(outcome).failures.len() == summary_of(outcome).failed,
        summary_of(outcome).deleted + summary_of(outcome).failed <= outcome.results.len(),
        summary_of(outcome).dry_run <==> outcome.mode.dry_run_reason is Some,
        forall|i: int|
            0 <= i < outcome.results.len() ==> (
            #[trigger] outcome.results[i].outcome matches ItemOutcomeView::Failed { message }
                ==> summary_of(outcome).failures.contains((outcome.results[i].path, message))),
{
    let results = outcome.results;
    crate::seqs::filter_map_count(results, item_failure(), crate::delete::is_failed());
    counts_do_not_overlap(results);
    assert forall|i: int| 0 <= i < results.len() implies (
    #[trigger] results[i].outcome matches ItemOutcomeView::Failed { message } ==> summary_of(
        outcome,
    ).failures.contains((results[i].path, message))) by {
        if results[i].outcome is Failed {
            let k = crate::seqs::filter_map_keeps(results, item_failure(), i);
            assert(summary_of(outcome).failures[k] == item_failure()(results[i])->0);
        }
    }
}

proof fn counts_do_not_overlap(results: Seq<ItemResultView>)
    ensures
        total(results, crate::delete::is_deleted()) + total(results, crate::delete::is_failed())
            <= results.len(),
    decreases results.len(),
{
    if results.len() > 0 {
        counts_do_not_overlap(results.drop_last());
    }
}

/// Something is told of saving, recording and starting again if and only if it
/// did not succeed, in the language that is set.
pub proof fn which_results_are_told(
    lang: Lang,
    saved: Option<Result<(), String>>,
    history: Option<Result<History, String>>,
    log: Option<Result<Vec<AuditRecord>, String>>,
    elevated: ElevateResult,
    s: SessionView,
)
    ensures
        save_notice(lang, saved) is None <==> saved is Some && saved->0 is Ok,
        history_notice(lang, history) is None <==> history is Some && history->0 is Ok,
        log_notice(lang, log) is None <==> log is Some && log->0 is Ok,
        elevate_notice(lang, elevated) is None <==> elevated is Ok,
        saved is Some && saved->0 is Ok ==> telling_maybe(s, save_notice(lang, saved)) == s,
        saved is None || saved->0 is Err ==> telling_maybe(
            s,
            save_notice(lang, saved),
        ).notices.len() == s.notices.len() + 1,
{
}

/// When the session starts, the user is told if and only if the history or the
/// log could not be read, or administrator rights were asked for in vain.
pub proof fn what_is_told_at_the_start(
    lang: Lang,
    history: Option<Result<History, String>>,
    relaunched: bool,
    elevated: bool,
    records: Option<Result<Vec<AuditRecord>, String>>,
    read: History,
)
    ensures
        ({
            let a = if history is Some && history->0 is Err {
                1int
            } else {
                0
            };
            let b = if relaunched && !elevated {
                1int
            } else {
                0
            };
            let c = if records is Some && records->0 is Err {
                1int
            } else {
                0
            };
            first_notices(lang, history, relaunched, elevated, records).len() == a + b + c
        }),
        records is Some && records->0 is Ok ==> loaded_records(records) == record_views(
            records->0->Ok_0@,
        ),
        records is None || records->0 is Err ==> loaded_records(records).len() == 0,
        history is Some && history->0 is Ok ==> (is_loaded_history(read, history) <==> read
            == history->0->Ok_0),
        history is None || history->0 is Err ==> (is_loaded_history(read, history)
            <==> read.entries@.len() == 0),
{
}

/// What the user newly wants of a rule is what is wanted of it from then on; all
/// other rules, and all other settings, stay.
pub proof fn a_new_wish_holds(
    old_config: Config,
    new_config: Config,
    rule_id: Seq<char>,
    pref: RulePref,
    other: Seq<char>,
)
    requires
        has_new_pref(old_config, new_config, rule_id, pref),
        other != rule_id,
    ensures
        new_config.pref(rule_id) == pref,
        new_config.pref(other) == old_config.pref(other),
        new_config.age_thresholds == old_config.age_thresholds,
        new_config.use_trash == old_config.use_trash,
        new_config.dry_run_default == old_config.dry_run_default,
        new_config.lang == old_config.lang,
{
    assert(new_config.rule_prefs.value(rule_id) == Some(pref));
    assert(new_config.rule_prefs.value(other) == old_config.rule_prefs.value(other));
}

/// A threshold that is newly set holds from then on, within its range; those of
/// all other rules, and all other settings, stay.
pub proof fn a_new_threshold_holds(
    old_config: Config,
    new_config: Config,
    rule_id: Seq<char>,
    days: u64,
    own: u64,
    other: Seq<char>,
)
    requires
        has_new_threshold(old_config, new_config, rule_id, days),
        other != rule_id,
    ensures
        crate::config::is_kept_in_range(days, new_config.threshold(rule_id, own)),
        new_config.threshold(other, own) == old_config.threshold(other, own),
        new_config.rule_prefs == old_config.rule_prefs,
        new_config.use_trash == old_config.use_trash,
        new_config.dry_run_default == old_config.dry_run_default,
        new_config.lang == old_config.lang,
{
    assert(new_config.age_thresholds.value(rule_id) == Some(days));
    assert(new_config.age_thresholds.value(other) == old_config.age_thresholds.value(other));
}

/// A summary of a restore counts each item under what became of it, and lists
/// each failure.
pub proof fn what_a_restore_summary_tells(outcome: RestoreOutcome)
    ensures
        ({
            let s = restore_summary_of(outcome);
            &&& s.restored + s.skipped + s.not_found + s.failed == outcome.results@.len()
            &&& s.failures.len() == s.failed
        }),
{
    crate::restore::restore_counts_are_complete(outcome.results@);
    crate::seqs::filter_map_count(
        outcome.results@,
        restore_failure(),
        crate::restore::is_failed(),
    );
}

/// What is shown beside a plan adds up to the plan, by category and by size.
pub proof fn the_breakdown_adds_up(
    breakdown: Seq<CategoryView>,
    buckets: Seq<BucketBreakdown>,
    plan: DeletePlanView,
)
    requires
        accounts_for(breakdown, buckets, plan),
    ensures
        total(breakdown, crate::breakdown::size_of_category()) == plan.total_size(),
        total(breakdown, crate::breakdown::files_of_category()) == plan.total_file_count(),
        total(breakdown, crate::breakdown::items_of_category()) == plan.items.len(),
        buckets.len() == 5,
        buckets[0].total_size + buckets[1].total_size + buckets[2].total_size
            + buckets[3].total_size + buckets[4].total_size == plan.total_size(),
        buckets[0].item_count + buckets[1].item_count + buckets[2].item_count
            + buckets[3].item_count + buckets[4].item_count == plan.items.len(),
{
    let items = plan.items.map_values(planned_item());
    crate::breakdown::plan_breakdown_covers_the_plan(plan);
    crate::breakdown::categories_cover_the_total(items, breakdown);
    crate::breakdown::bucket_totals_equal_category_totals(items, breakdown, buckets);
}

/// Settings on which the rules or the entries depend need a new scan; those on
/// how to delete bear on the plan alone.
pub proof fn what_a_setting_bears_on(setting: Setting)
    ensures
        setting.needs_scan() <==> setting is DetectDuplicates || setting is UserRules || setting is
            LargeFileMib || setting is Language,
        setting.bears_on_plan() <==> setting is UseTrash || setting is DryRunDefault,
        !(setting.needs_scan() && setting.bears_on_plan()),
{
}

} // verus!
