//! Deleting, in three steps that types enforce: scan, preview, execute.
//!
//! A [`DeletePlan`] comes from [`preview`] alone, and executing it consumes it:
//! nothing is deleted that was not previewed, and no plan runs twice.

use crate::config::Config;
use crate::entry::{entry_views, ScanEntry, ScanEntryView};
use crate::path::{FilePath, FilePathView};
use crate::platform::{KnownDir, Platform};
use crate::rule::{find_rule, first_rule, rule_views, Rule, RuleView};
use crate::seqs::{total, total_monotone, total_push, total_take};
use vstd::prelude::*;

verus! {

// ---- How to delete ----

/// What a [`DeleteRequest`] asks for.
#[derive(Debug, Clone, Copy, PartialEq, Eq, Structural)]
pub enum RequestKind {
    /// What the settings say.
    FromConfig,
    /// A preview.
    DryRun,
    /// Deletion by way of the trash.
    Execute,
    /// Deletion for good, confirmed by the user.
    PermanentConfirmed,
    /// Deletion for good, not confirmed.
    PermanentUnconfirmed,
}

/// What the user interface asks for.
#[derive(Debug, Clone, Copy, PartialEq, Eq, Structural)]
pub struct DeleteRequest {
    kind: RequestKind,
}

impl View for DeleteRequest {
    type V = RequestKind;

    closed spec fn view(&self) -> RequestKind {
        self.kind
    }
}

impl DeleteRequest {
    /// Do what the settings say.
    pub fn from_config() -> (r: DeleteRequest)
        ensures
            r@ == RequestKind::FromConfig,
    {
        DeleteRequest { kind: RequestKind::FromConfig }
    }

    /// Preview only.
    pub fn dry_run() -> (r: DeleteRequest)
        ensures
            r@ == RequestKind::DryRun,
    {
        DeleteRequest { kind: RequestKind::DryRun }
    }

    /// Delete by way of the trash.
    pub fn execute() -> (r: DeleteRequest)
        ensures
            r@ == RequestKind::Execute,
    {
        DeleteRequest { kind: RequestKind::Execute }
    }

    /// Delete for good, after the user has confirmed it.
    pub fn permanent_confirmed() -> (r: DeleteRequest)
        ensures
            r@ == RequestKind::PermanentConfirmed,
    {
        DeleteRequest { kind: RequestKind::PermanentConfirmed }
    }

    /// Delete for good, which the user has not confirmed.
    pub fn permanent_unconfirmed() -> (r: DeleteRequest)
        ensures
            r@ == RequestKind::PermanentUnconfirmed,
    {
        DeleteRequest { kind: RequestKind::PermanentUnconfirmed }
    }
}

/// How files are deleted.
#[derive(Debug, Clone, Copy, PartialEq, Eq, Structural)]
pub enum DeleteMethod {
    /// By way of the trash.
    Trash,
    /// For good.
    Permanent,
}

/// Why nothing is deleted.
#[derive(Debug, Clone, Copy, PartialEq, Eq, Structural)]
pub enum DryRunReason {
    /// The settings say so.
    ConfigDefault,
    /// The user asked for a preview.
    ExplicitRequest,
    /// Deletion for good was not confirmed.
    PermanentNotConfirmed,
    /// The settings do not allow the trash.
    TrashDisabled,
}

/// How to delete, and whether to delete at all.
#[derive(Debug, Clone, Copy, PartialEq, Eq, Structural)]
pub struct DeleteMode {
    dry_run_reason: Option<DryRunReason>,
    method: DeleteMethod,
}

/// The value of a [`DeleteMode`].
#[verifier::ext_equal]
pub struct DeleteModeView {
    pub dry_run_reason: Option<DryRunReason>,
    pub method: DeleteMethod,
}

impl View for DeleteMode {
    type V = DeleteModeView;

    closed spec fn view(&self) -> DeleteModeView {
        DeleteModeView { dry_run_reason: self.dry_run_reason, method: self.method }
    }
}

impl DeleteModeView {
    /// Nothing is deleted.
    pub open spec fn is_dry_run(self) -> bool {
        self.dry_run_reason is Some
    }
}

/// Deletion by way of the trash, where the settings allow it. It never turns
/// into deletion for good.
pub open spec fn trash_mode(config: Config) -> DeleteModeView {
    DeleteModeView {
        dry_run_reason: if config.use_trash {
            None
        } else {
            Some(DryRunReason::TrashDisabled)
        },
        method: DeleteMethod::Trash,
    }
}

/// What a request amounts to under the settings.
pub open spec fn mode_for(config: Config, request: RequestKind) -> DeleteModeView {
    match request {
        RequestKind::FromConfig => if config.dry_run_default {
            DeleteModeView {
                dry_run_reason: Some(DryRunReason::ConfigDefault),
                method: DeleteMethod::Trash,
            }
        } else {
            trash_mode(config)
        },
        RequestKind::DryRun => DeleteModeView {
            dry_run_reason: Some(DryRunReason::ExplicitRequest),
            method: DeleteMethod::Trash,
        },
        RequestKind::Execute => trash_mode(config),
        RequestKind::PermanentConfirmed => DeleteModeView {
            dry_run_reason: None,
            method: DeleteMethod::Permanent,
        },
        RequestKind::PermanentUnconfirmed => DeleteModeView {
            dry_run_reason: Some(DryRunReason::PermanentNotConfirmed),
            method: DeleteMethod::Permanent,
        },
    }
}

impl DeleteMode {
    /// What `request` amounts to under the settings `config`.
    pub fn resolve(config: &Config, request: DeleteRequest) -> (r: DeleteMode)
        ensures
            r@ == mode_for(*config, request@),
    {
        match request.kind {
            RequestKind::FromConfig => {
                if config.dry_run_default {
                    DeleteMode {
                        dry_run_reason: Some(DryRunReason::ConfigDefault),
                        method: DeleteMethod::Trash,
                    }
                } else {
                    DeleteMode::trash_or_disabled(config)
                }
            },
            RequestKind::DryRun => DeleteMode {
                dry_run_reason: Some(DryRunReason::ExplicitRequest),
                method: DeleteMethod::Trash,
            },
            RequestKind::Execute => DeleteMode::trash_or_disabled(config),
            RequestKind::PermanentConfirmed => DeleteMode {
                dry_run_reason: None,
                method: DeleteMethod::Permanent,
            },
            RequestKind::PermanentUnconfirmed => DeleteMode {
                dry_run_reason: Some(DryRunReason::PermanentNotConfirmed),
                method: DeleteMethod::Permanent,
            },
        }
    }

    fn trash_or_disabled(config: &Config) -> (r: DeleteMode)
        ensures
            r@ == trash_mode(*config),
    {
        if config.use_trash {
            DeleteMode { dry_run_reason: None, method: DeleteMethod::Trash }
        } else {
            DeleteMode {
                dry_run_reason: Some(DryRunReason::TrashDisabled),
                method: DeleteMethod::Trash,
            }
        }
    }

    /// Whether nothing is deleted.
    pub fn is_dry_run(&self) -> (r: bool)
        ensures
            r == self@.is_dry_run(),
    {
        self.dry_run_reason.is_some()
    }

    /// How files are deleted.
    pub fn method(&self) -> (r: DeleteMethod)
        ensures
            r == self@.method,
    {
        self.method
    }

    /// Why nothing is deleted.
    pub fn dry_run_reason(&self) -> (r: Option<DryRunReason>)
        ensures
            r == self@.dry_run_reason,
    {
        self.dry_run_reason
    }
}

/// Only a confirmed request for it ever deletes for good.
pub proof fn permanent_only_when_confirmed(config: Config, request: RequestKind)
    requires
        !mode_for(config, request).is_dry_run(),
        mode_for(config, request).method == DeleteMethod::Permanent,
    ensures
        request == RequestKind::PermanentConfirmed,
{
}

/// The default settings delete nothing unless asked to.
pub proof fn default_settings_only_preview(config: Config)
    requires
        crate::config::is_default_config(config),
    ensures
        mode_for(config, RequestKind::FromConfig).is_dry_run(),
{
}

// ---- What to delete ----

/// What is done to a planned item.
#[derive(Debug, Clone, Copy, PartialEq, Eq, Structural)]
pub enum DeleteAction {
    /// Move it to the trash.
    ToTrash,
    /// Remove it for good.
    RemovePath,
    /// Remove for good what is in it, and keep it.
    EmptyContainer,
}

/// One planned deletion.
#[derive(Debug, PartialEq, Eq)]
pub struct PlannedDeletion {
    /// The id of the rule.
    pub rule_id: String,
    /// What to delete.
    pub path: FilePath,
    /// Its size in bytes.
    pub size: u64,
    /// How many files it stands for.
    pub file_count: u64,
    /// What is done to it.
    pub action: DeleteAction,
}

/// The value of a [`PlannedDeletion`].
#[verifier::ext_equal]
pub struct PlannedDeletionView {
    pub rule_id: Seq<char>,
    pub path: FilePathView,
    pub size: u64,
    pub file_count: u64,
    pub action: DeleteAction,
}

impl View for PlannedDeletion {
    type V = PlannedDeletionView;

    open spec fn view(&self) -> PlannedDeletionView {
        PlannedDeletionView {
            rule_id: self.rule_id@,
            path: self.path@,
            size: self.size,
            file_count: self.file_count,
            action: self.action,
        }
    }
}

impl Clone for PlannedDeletion {
    fn clone(&self) -> (r: PlannedDeletion)
        ensures
            r@ == self@,
    {
        PlannedDeletion {
            rule_id: self.rule_id.clone(),
            path: self.path.clone(),
            size: self.size,
            file_count: self.file_count,
            action: self.action,
        }
    }
}

/// Why an entry is not deleted.
#[derive(Debug, Clone, Copy, PartialEq, Eq, Structural)]
pub enum ExclusionReason {
    /// The user has not selected it.
    NotSelected,
    /// No rule has its rule id.
    UnknownRule,
    /// Administrator rights are missing.
    NeedsAdmin,
    /// It does not lie below the base of its rule.
    OutsideRuleBase,
    /// The base of its rule cannot be resolved.
    UnresolvedBase,
    /// It can only be deleted for good.
    RequiresPermanent,
}

/// An entry that is not deleted.
#[derive(Debug, PartialEq, Eq)]
pub struct ExcludedEntry {
    /// The id of the rule.
    pub rule_id: String,
    /// Where it is.
    pub path: FilePath,
    /// Its size in bytes.
    pub size: u64,
    /// Why it is not deleted.
    pub reason: ExclusionReason,
}

/// The value of an [`ExcludedEntry`].
#[verifier::ext_equal]
pub struct ExcludedEntryView {
    pub rule_id: Seq<char>,
    pub path: FilePathView,
    pub size: u64,
    pub reason: ExclusionReason,
}

impl View for ExcludedEntry {
    type V = ExcludedEntryView;

    open spec fn view(&self) -> ExcludedEntryView {
        ExcludedEntryView {
            rule_id: self.rule_id@,
            path: self.path@,
            size: self.size,
            reason: self.reason,
        }
    }
}

/// What will be deleted, and what will not. It comes from [`preview`] alone.
#[must_use]
#[derive(Debug)]
pub struct DeletePlan {
    mode: DeleteMode,
    items: Vec<PlannedDeletion>,
    excluded: Vec<ExcludedEntry>,
}

/// The value of a [`DeletePlan`].
#[verifier::ext_equal]
pub struct DeletePlanView {
    pub mode: DeleteModeView,
    pub items: Seq<PlannedDeletionView>,
    pub excluded: Seq<ExcludedEntryView>,
}

/// The values of a list of planned deletions.
pub open spec fn item_views(items: Seq<PlannedDeletion>) -> Seq<PlannedDeletionView> {
    items.map_values(|i: PlannedDeletion| i@)
}

/// The values of a list of excluded entries.
pub open spec fn excluded_views(excluded: Seq<ExcludedEntry>) -> Seq<ExcludedEntryView> {
    excluded.map_values(|e: ExcludedEntry| e@)
}

impl View for DeletePlan {
    type V = DeletePlanView;

    closed spec fn view(&self) -> DeletePlanView {
        DeletePlanView {
            mode: self.mode@,
            items: item_views(self.items@),
            excluded: excluded_views(self.excluded@),
        }
    }
}

/// The size of a planned item.
pub open spec fn item_size() -> spec_fn(PlannedDeletionView) -> nat {
    |i: PlannedDeletionView| i.size as nat
}

/// The number of files of a planned item.
pub open spec fn item_files() -> spec_fn(PlannedDeletionView) -> nat {
    |i: PlannedDeletionView| i.file_count as nat
}

impl DeletePlanView {
    /// The size of all items.
    pub open spec fn total_size(self) -> nat {
        total(self.items, item_size())
    }

    /// The number of files of all items.
    pub open spec fn total_file_count(self) -> nat {
        total(self.items, item_files())
    }

    /// The size of all items can be counted.
    pub open spec fn size_fits(self) -> bool {
        self.total_size() <= u64::MAX
    }

    /// The files of all items can be counted.
    pub open spec fn files_fit(self) -> bool {
        self.total_file_count() <= u64::MAX
    }
}

impl DeletePlan {
    /// How the plan deletes.
    pub fn mode(&self) -> (r: &DeleteMode)
        ensures
            r@ == self@.mode,
    {
        &self.mode
    }

    /// What will be deleted.
    pub fn items(&self) -> (r: &[PlannedDeletion])
        ensures
            item_views(r@) == self@.items,
    {
        self.items.as_slice()
    }

    /// What will not be deleted.
    pub fn excluded(&self) -> (r: &[ExcludedEntry])
        ensures
            excluded_views(r@) == self@.excluded,
    {
        self.excluded.as_slice()
    }

    /// Whether the size of all items can be counted.
    pub fn size_fits(&self) -> (r: bool)
        ensures
            r == self@.size_fits(),
    {
        let ghost all = self@.items;
        let mut size: u64 = 0;
        let mut i: usize = 0;
        while i < self.items.len()
            invariant
                i <= self.items@.len(),
                all == item_views(self.items@),
                all == self@.items,
                size == total(all.take(i as int), item_size()),
            decreases self.items@.len() - i,
        {
            proof {
                total_take(all, i as int, item_size());
            }
            match size.checked_add(self.items[i].size) {
                Some(s) => {
                    size = s;
                },
                None => {
                    return false;
                },
            }
            i = i + 1;
        }
        assert(all.take(i as int) =~= all);
        true
    }

    /// Whether the files of all items can be counted.
    pub fn files_fit(&self) -> (r: bool)
        ensures
            r == self@.files_fit(),
    {
        let ghost all = self@.items;
        let mut files: u64 = 0;
        let mut i: usize = 0;
        while i < self.items.len()
            invariant
                i <= self.items@.len(),
                all == item_views(self.items@),
                all == self@.items,
                files == total(all.take(i as int), item_files()),
            decreases self.items@.len() - i,
        {
            proof {
                total_take(all, i as int, item_files());
            }
            match files.checked_add(self.items[i].file_count) {
                Some(f) => {
                    files = f;
                },
                None => {
                    return false;
                },
            }
            i = i + 1;
        }
        assert(all.take(i as int) =~= all);
        true
    }

    /// The size of all items.
    pub fn total_size(&self) -> (r: u64)
        requires
            self@.size_fits(),
        ensures
            r == self@.total_size(),
    {
        let ghost all = self@.items;
        let mut size: u64 = 0;
        let mut i: usize = 0;
        while i < self.items.len()
            invariant
                i <= self.items@.len(),
                all == item_views(self.items@),
                total(all, item_size()) <= u64::MAX,
                size == total(all.take(i as int), item_size()),
            decreases self.items@.len() - i,
        {
            proof {
                total_take(all, i as int, item_size());
            }
            size = size + self.items[i].size;
            i = i + 1;
        }
        assert(all.take(i as int) =~= all);
        size
    }

    /// The number of files of all items.
    pub fn total_file_count(&self) -> (r: u64)
        requires
            self@.files_fit(),
        ensures
            r == self@.total_file_count(),
    {
        let ghost all = self@.items;
        let mut files: u64 = 0;
        let mut i: usize = 0;
        while i < self.items.len()
            invariant
                i <= self.items@.len(),
                all == item_views(self.items@),
                total(all, item_files()) <= u64::MAX,
                files == total(all.take(i as int), item_files()),
            decreases self.items@.len() - i,
        {
            proof {
                total_take(all, i as int, item_files());
            }
            files = files + self.items[i].file_count;
            i = i + 1;
        }
        assert(all.take(i as int) =~= all);
        files
    }

    /// How many items there are.
    pub fn item_count(&self) -> (r: usize)
        ensures
            r == self@.items.len(),
    {
        self.items.len()
    }

    /// Whether there is nothing to delete.
    pub fn is_empty(&self) -> (r: bool)
        ensures
            r == (self@.items.len() == 0),
    {
        self.items.len() == 0
    }
}

/// What is done to an entry of a rule with the base `base`. What lies in the
/// recycle bin cannot be moved there: it is removed for good or not at all, and
/// the bin itself stays.
pub open spec fn action_for(base: KnownDir, method: DeleteMethod) -> Result<
    DeleteAction,
    ExclusionReason,
> {
    match method {
        DeleteMethod::Trash => if base == KnownDir::RecycleBin {
            Err(ExclusionReason::RequiresPermanent)
        } else {
            Ok(DeleteAction::ToTrash)
        },
        DeleteMethod::Permanent => if base == KnownDir::RecycleBin {
            Ok(DeleteAction::EmptyContainer)
        } else {
            Ok(DeleteAction::RemovePath)
        },
    }
}

/// What is done to an entry of `rule`, or why nothing is.
pub open spec fn decision_under<P: Platform + ?Sized>(
    platform: &P,
    path: FilePathView,
    rule: RuleView,
    mode: DeleteModeView,
) -> Result<DeleteAction, ExclusionReason> {
    let elevated = platform.elevated();
    if !rule.permitted(elevated) {
        Err(ExclusionReason::NeedsAdmin)
    } else {
        match platform.dir_of(rule.base) {
            None => Err(ExclusionReason::UnresolvedBase),
            Some(base) => if !path.strictly_under(base) {
                Err(ExclusionReason::OutsideRuleBase)
            } else if platform.admin(path) && !rule.may_touch_admin(elevated) {
                Err(ExclusionReason::NeedsAdmin)
            } else {
                action_for(rule.base, mode.method)
            },
        }
    }
}

/// What is done to an entry, or why nothing is.
pub open spec fn decision<P: Platform + ?Sized>(
    platform: &P,
    entry: ScanEntryView,
    rules: Seq<RuleView>,
    mode: DeleteModeView,
) -> Result<DeleteAction, ExclusionReason> {
    if !entry.selected {
        Err(ExclusionReason::NotSelected)
    } else {
        match first_rule(rules, entry.rule_id) {
            None => Err(ExclusionReason::UnknownRule),
            Some(rule) => decision_under(platform, entry.path, rule, mode),
        }
    }
}

/// The planned deletion of an entry, where it is deleted.
pub open spec fn planned<P: Platform + ?Sized>(
    platform: &P,
    rules: Seq<RuleView>,
    mode: DeleteModeView,
) -> spec_fn(ScanEntryView) -> Option<PlannedDeletionView> {
    |entry: ScanEntryView|
        match decision(platform, entry, rules, mode) {
            Ok(action) => Some(
                PlannedDeletionView {
                    rule_id: entry.rule_id,
                    path: entry.path,
                    size: entry.size,
                    file_count: entry.file_count,
                    action,
                },
            ),
            Err(_) => None,
        }
}

/// The exclusion of an entry, where it is not deleted.
pub open spec fn refused<P: Platform + ?Sized>(
    platform: &P,
    rules: Seq<RuleView>,
    mode: DeleteModeView,
) -> spec_fn(ScanEntryView) -> Option<ExcludedEntryView> {
    |entry: ScanEntryView|
        match decision(platform, entry, rules, mode) {
            Ok(_) => None,
            Err(reason) => Some(
                ExcludedEntryView {
                    rule_id: entry.rule_id,
                    path: entry.path,
                    size: entry.size,
                    reason,
                },
            ),
        }
}

/// The plan for a list of entries: what is deleted and what is not, each in the
/// order of the entries.
pub open spec fn plan_for<P: Platform + ?Sized>(
    platform: &P,
    entries: Seq<ScanEntryView>,
    rules: Seq<RuleView>,
    mode: DeleteModeView,
) -> DeletePlanView {
    DeletePlanView {
        mode,
        items: entries.filter_map(planned(platform, rules, mode)),
        excluded: entries.filter_map(refused(platform, rules, mode)),
    }
}

/// Plans the deletion of the selected entries. Nothing is deleted yet.
pub fn preview<P: Platform + ?Sized>(
    platform: &P,
    entries: &[ScanEntry],
    rules: &[Rule],
    mode: DeleteMode,
) -> (r: DeletePlan)
    ensures
        r@ == plan_for(platform, entry_views(entries@), rule_views(rules@), mode@),
{
    let ghost all = entry_views(entries@);
    let ghost accept = planned(platform, rule_views(rules@), mode@);
    let ghost refuse = refused(platform, rule_views(rules@), mode@);
    let mut items: Vec<PlannedDeletion> = Vec::new();
    let mut excluded: Vec<ExcludedEntry> = Vec::new();
    let mut i: usize = 0;
    assert(item_views(items@) =~= all.take(0).filter_map(accept));
    assert(excluded_views(excluded@) =~= all.take(0).filter_map(refuse));
    while i < entries.len()
        invariant
            i <= entries@.len(),
            all == entry_views(entries@),
            accept == planned(platform, rule_views(rules@), mode@),
            refuse == refused(platform, rule_views(rules@), mode@),
            item_views(items@) == all.take(i as int).filter_map(accept),
            excluded_views(excluded@) == all.take(i as int).filter_map(refuse),
        decreases entries@.len() - i,
    {
        let entry = &entries[i];
        let ghost old_items = items@;
        let ghost old_excluded = excluded@;
        proof {
            all.lemma_filter_map_take_succ(accept, i as int);
            all.lemma_filter_map_take_succ(refuse, i as int);
            assert(all[i as int] == entry@);
        }
        match plan_entry(platform, entry, rules, &mode) {
            Ok(item) => {
                items.push(item);
                assert(item_views(items@) =~= item_views(old_items) + seq![item@]);
            },
            Err(reason) => {
                let e = ExcludedEntry {
                    rule_id: entry.rule_id.clone(),
                    path: entry.path.clone(),
                    size: entry.size,
                    reason,
                };
                excluded.push(e);
                assert(excluded_views(excluded@) =~= excluded_views(old_excluded) + seq![e@]);
            },
        }
        assert(item_views(items@) =~= all.take(i + 1).filter_map(accept));
        assert(excluded_views(excluded@) =~= all.take(i + 1).filter_map(refuse));
        i = i + 1;
    }
    assert(all.take(i as int) =~= all);
    DeletePlan { mode, items, excluded }
}

/// Plans the deletion of one entry, or says why it is not deleted.
pub fn plan_entry<P: Platform + ?Sized>(
    platform: &P,
    entry: &ScanEntry,
    rules: &[Rule],
    mode: &DeleteMode,
) -> (r: Result<PlannedDeletion, ExclusionReason>)
    ensures
        match r {
            Ok(item) => planned(platform, rule_views(rules@), mode@)(entry@) == Some(item@),
            Err(reason) => decision(platform, entry@, rule_views(rules@), mode@)
                == Err::<DeleteAction, ExclusionReason>(reason),
        },
{
    if !entry.selected {
        return Err(ExclusionReason::NotSelected);
    }
    let rule = match find_rule(rules, entry.rule_id.as_str()) {
        Some(rule) => rule,
        None => {
            return Err(ExclusionReason::UnknownRule);
        },
    };
    let elevated = platform.is_elevated();
    if !rule.is_permitted(elevated) {
        return Err(ExclusionReason::NeedsAdmin);
    }
    let base = match platform.known_dir(rule.base) {
        Some(base) => base,
        None => {
            return Err(ExclusionReason::UnresolvedBase);
        },
    };
    if entry.path.climbs() || entry.path.same_place(&base) || !entry.path.starts_with(&base) {
        return Err(ExclusionReason::OutsideRuleBase);
    }
    if platform.requires_admin(&entry.path) && !rule.may_touch_admin_area(elevated) {
        return Err(ExclusionReason::NeedsAdmin);
    }
    let is_trash_container = rule.base == KnownDir::RecycleBin;
    let action = match mode.method() {
        DeleteMethod::Trash => {
            if is_trash_container {
                return Err(ExclusionReason::RequiresPermanent);
            }
            DeleteAction::ToTrash
        },
        DeleteMethod::Permanent => {
            if is_trash_container {
                DeleteAction::EmptyContainer
            } else {
                DeleteAction::RemovePath
            }
        },
    };
    Ok(
        PlannedDeletion {
            rule_id: entry.rule_id.clone(),
            path: entry.path.clone(),
            size: entry.size,
            file_count: entry.file_count,
            action,
        },
    )
}

/// Every entry is either planned for deletion or excluded.
pub proof fn every_entry_is_planned_or_excluded<P: Platform + ?Sized>(
    platform: &P,
    entries: Seq<ScanEntryView>,
    rules: Seq<RuleView>,
    mode: DeleteModeView,
)
    ensures
        ({
            let plan = plan_for(platform, entries, rules, mode);
            plan.items.len() + plan.excluded.len() == entries.len()
        }),
{
    crate::seqs::filter_map_parts(
        entries,
        planned(platform, rules, mode),
        refused(platform, rules, mode),
    );
}

/// What is planned for deletion was selected by the user, lies below the base
/// of a known rule without being that base or climbing out of it, and reaches
/// into an administrator area only for a rule that needs administrator rights
/// and has them. The recycle bin is emptied for good or left alone.
pub proof fn planned_items_are_allowed<P: Platform + ?Sized>(
    platform: &P,
    entries: Seq<ScanEntryView>,
    rules: Seq<RuleView>,
    mode: DeleteModeView,
    k: int,
) -> (i: int)
    requires
        0 <= k < plan_for(platform, entries, rules, mode).items.len(),
    ensures
        0 <= i < entries.len(),
        ({
            let item = plan_for(platform, entries, rules, mode).items[k];
            let entry = entries[i];
            let rule = first_rule(rules, item.rule_id)->0;
            &&& entry.selected
            &&& entry.rule_id == item.rule_id
            &&& entry.path == item.path
            &&& entry.size == item.size
            &&& entry.file_count == item.file_count
            &&& first_rule(rules, item.rule_id) is Some
            &&& rule.needs_admin ==> platform.elevated()
            &&& platform.dir_of(rule.base) is Some
            &&& item.path.strictly_under(platform.dir_of(rule.base)->0)
            &&& platform.admin(item.path) ==> rule.needs_admin && platform.elevated()
            &&& item.action == DeleteAction::EmptyContainer <==> rule.base == KnownDir::RecycleBin
            &&& item.action == DeleteAction::ToTrash <==> mode.method == DeleteMethod::Trash
        }),
{
    crate::seqs::filter_map_source(entries, planned(platform, rules, mode), k)
}

// ---- Deleting ----

/// What became of one item.
#[derive(Debug, PartialEq, Eq)]
pub enum ItemOutcome {
    /// It was deleted.
    Deleted,
    /// Nothing was tried.
    NotAttempted,
    /// It was gone already, which is no failure.
    Missing,
    /// Deleting it failed.
    Failed {
        /// The text of the failure.
        message: String,
    },
}

/// The value of an [`ItemOutcome`].
#[verifier::ext_equal]
pub enum ItemOutcomeView {
    Deleted,
    NotAttempted,
    Missing,
    Failed { message: Seq<char> },
}

impl View for ItemOutcome {
    type V = ItemOutcomeView;

    open spec fn view(&self) -> ItemOutcomeView {
        match self {
            ItemOutcome::Deleted => ItemOutcomeView::Deleted,
            ItemOutcome::NotAttempted => ItemOutcomeView::NotAttempted,
            ItemOutcome::Missing => ItemOutcomeView::Missing,
            ItemOutcome::Failed { message } => ItemOutcomeView::Failed { message: message@ },
        }
    }
}

impl Clone for ItemOutcome {
    fn clone(&self) -> (r: ItemOutcome)
        ensures
            r@ == self@,
    {
        match self {
            ItemOutcome::Deleted => ItemOutcome::Deleted,
            ItemOutcome::NotAttempted => ItemOutcome::NotAttempted,
            ItemOutcome::Missing => ItemOutcome::Missing,
            ItemOutcome::Failed { message } => ItemOutcome::Failed { message: message.clone() },
        }
    }
}

impl ItemOutcome {
    /// What became of an item that was tried: an error is a failure of this
    /// item and of no other.
    pub fn from_attempt(result: Result<(), String>) -> (r: ItemOutcome)
        ensures
            result is Ok <==> r@ == ItemOutcomeView::Deleted,
            result is Err ==> r@ == (ItemOutcomeView::Failed { message: result->Err_0@ }),
    {
        match result {
            Ok(_) => ItemOutcome::Deleted,
            Err(message) => ItemOutcome::Failed { message },
        }
    }
}

/// What is done to one item.
#[derive(Debug, Clone, Copy, PartialEq, Eq, Structural)]
pub enum DeletionStep {
    /// Nothing: it is gone already.
    Missing,
    /// It is moved to the trash.
    ToTrash,
    /// It is removed for good.
    RemovePath,
    /// All that is in it is removed for good.
    EmptyContainer,
}

/// What is done to an item with the action `action`, which is still there or
/// not.
pub fn deletion_step(exists_there: bool, action: DeleteAction) -> (r: DeletionStep)
    ensures
        r is Missing <==> !exists_there,
        exists_there ==> r == (match action {
            DeleteAction::ToTrash => DeletionStep::ToTrash,
            DeleteAction::RemovePath => DeletionStep::RemovePath,
            DeleteAction::EmptyContainer => DeletionStep::EmptyContainer,
        }),
{
    if !exists_there {
        return DeletionStep::Missing;
    }
    match action {
        DeleteAction::ToTrash => DeletionStep::ToTrash,
        DeleteAction::RemovePath => DeletionStep::RemovePath,
        DeleteAction::EmptyContainer => DeletionStep::EmptyContainer,
    }
}

/// How a path is removed for good.
#[derive(Debug, Clone, Copy, PartialEq, Eq, Structural)]
pub enum Removal {
    /// The link itself, never what it points to.
    Link,
    /// A directory with all that is in it.
    Tree,
    /// A file.
    File,
}

/// How a path is removed for good.
pub fn removal_of(is_symlink: bool, is_dir: bool) -> (r: Removal)
    ensures
        r == (if is_symlink {
            Removal::Link
        } else if is_dir {
            Removal::Tree
        } else {
            Removal::File
        }),
{
    if is_symlink {
        Removal::Link
    } else if is_dir {
        Removal::Tree
    } else {
        Removal::File
    }
}

/// The result of emptying a container whose children gave `results`: all of
/// them were tried, and the last failure is reported.
pub fn container_result(results: Vec<Result<(), String>>) -> (r: Result<(), String>)
    ensures
        r is Ok <==> forall|i: int| 0 <= i < results@.len() ==> (#[trigger] results@[i]) is Ok,
        r is Err ==> exists|i: int|
            {
                &&& 0 <= i < results@.len()
                &&& #[trigger] results@[i] is Err
                &&& results@[i]->Err_0 == r->Err_0
                &&& forall|j: int| i < j < results@.len() ==> (#[trigger] results@[j]) is Ok
            },
{
    let mut n: usize = results.len();
    while n > 0
        invariant
            n <= results@.len(),
            forall|j: int| n <= j < results@.len() ==> (#[trigger] results@[j]) is Ok,
        decreases n,
    {
        n = n - 1;
        match &results[n] {
            Ok(_) => {},
            Err(message) => {
                assert(results@[n as int] is Err);
                return Err(message.clone());
            },
        }
    }
    Ok(())
}

/// What became of one planned item.
#[derive(Debug, PartialEq, Eq)]
pub struct ItemResult {
    /// The id of the rule.
    pub rule_id: String,
    /// What was to be deleted.
    pub path: FilePath,
    /// Its size in bytes when it was planned.
    pub size: u64,
    /// What was to be done to it.
    pub action: DeleteAction,
    /// What became of it.
    pub outcome: ItemOutcome,
}

/// The value of an [`ItemResult`].
#[verifier::ext_equal]
pub struct ItemResultView {
    pub rule_id: Seq<char>,
    pub path: FilePathView,
    pub size: u64,
    pub action: DeleteAction,
    pub outcome: ItemOutcomeView,
}

impl View for ItemResult {
    type V = ItemResultView;

    open spec fn view(&self) -> ItemResultView {
        ItemResultView {
            rule_id: self.rule_id@,
            path: self.path@,
            size: self.size,
            action: self.action,
            outcome: self.outcome@,
        }
    }
}

/// The values of a list of results.
pub open spec fn result_views(results: Seq<ItemResult>) -> Seq<ItemResultView> {
    results.map_values(|r: ItemResult| r@)
}

/// How far a deletion has come.
#[derive(Debug, PartialEq, Eq)]
pub enum DeleteProgress {
    /// It has started.
    Started {
        /// How many items there are.
        total_items: usize,
        /// Their size in bytes.
        total_size: u64,
        /// Nothing will be deleted.
        dry_run: bool,
    },
    /// One item is done.
    ItemFinished {
        /// The item.
        path: FilePath,
        /// What became of it.
        outcome: ItemOutcome,
        /// The bytes that it freed.
        freed: u64,
        /// How many items are done.
        done: usize,
        /// How many items there are.
        total: usize,
    },
    /// All items are done.
    Finished {
        /// How many were deleted.
        deleted: usize,
        /// How many failed.
        failed: usize,
        /// The bytes that were freed.
        freed_bytes: u64,
    },
}

/// The value of a [`DeleteProgress`].
#[verifier::ext_equal]
pub enum DeleteProgressView {
    Started { total_items: nat, total_size: nat, dry_run: bool },
    ItemFinished {
        path: FilePathView,
        outcome: ItemOutcomeView,
        freed: nat,
        done: nat,
        total: nat,
    },
    Finished { deleted: nat, failed: nat, freed_bytes: nat },
}

impl View for DeleteProgress {
    type V = DeleteProgressView;

    open spec fn view(&self) -> DeleteProgressView {
        match self {
            DeleteProgress::Started { total_items, total_size, dry_run } => {
                DeleteProgressView::Started {
                    total_items: *total_items as nat,
                    total_size: *total_size as nat,
                    dry_run: *dry_run,
                }
            },
            DeleteProgress::ItemFinished { path, outcome, freed, done, total } => {
                DeleteProgressView::ItemFinished {
                    path: path@,
                    outcome: outcome@,
                    freed: *freed as nat,
                    done: *done as nat,
                    total: *total as nat,
                }
            },
            DeleteProgress::Finished { deleted, failed, freed_bytes } => {
                DeleteProgressView::Finished {
                    deleted: *deleted as nat,
                    failed: *failed as nat,
                    freed_bytes: *freed_bytes as nat,
                }
            },
        }
    }
}

/// One for a deleted item.
pub open spec fn is_deleted() -> spec_fn(ItemResultView) -> nat {
    |r: ItemResultView|
        if r.outcome == ItemOutcomeView::Deleted {
            1nat
        } else {
            0nat
        }
}

/// One for a failed item.
pub open spec fn is_failed() -> spec_fn(ItemResultView) -> nat {
    |r: ItemResultView|
        if r.outcome is Failed {
            1nat
        } else {
            0nat
        }
}

/// The bytes that an item freed: its size where it was deleted.
pub open spec fn freed_by() -> spec_fn(ItemResultView) -> nat {
    |r: ItemResultView|
        if r.outcome == ItemOutcomeView::Deleted {
            r.size as nat
        } else {
            0nat
        }
}

/// What a deletion came to.
#[must_use]
#[derive(Debug)]
pub struct DeleteOutcome {
    /// How files were deleted.
    pub mode: DeleteMode,
    /// What became of each item, in the order of the plan.
    pub results: Vec<ItemResult>,
    /// What was excluded from the plan.
    pub excluded: Vec<ExcludedEntry>,
}

/// The value of a [`DeleteOutcome`].
#[verifier::ext_equal]
pub struct DeleteOutcomeView {
    pub mode: DeleteModeView,
    pub results: Seq<ItemResultView>,
    pub excluded: Seq<ExcludedEntryView>,
}

impl View for DeleteOutcome {
    type V = DeleteOutcomeView;

    open spec fn view(&self) -> DeleteOutcomeView {
        DeleteOutcomeView {
            mode: self.mode@,
            results: result_views(self.results@),
            excluded: excluded_views(self.excluded@),
        }
    }
}

impl DeleteOutcomeView {
    /// How many items were deleted.
    pub open spec fn deleted(self) -> nat {
        total(self.results, is_deleted())
    }

    /// How many items failed.
    pub open spec fn failed(self) -> nat {
        total(self.results, is_failed())
    }

    /// The bytes that were freed.
    pub open spec fn freed(self) -> nat {
        total(self.results, freed_by())
    }

    /// Every item was tried, and none in a dry run.
    pub open spec fn is_tried(self) -> bool {
        forall|i: int|
            0 <= i < self.results.len() ==> ((#[trigger] self.results[i]).outcome
                == ItemOutcomeView::NotAttempted <==> self.mode.is_dry_run())
    }
}

impl DeleteOutcome {
    /// How many items were deleted.
    pub fn deleted_count(&self) -> (r: usize)
        ensures
            r == self@.deleted(),
    {
        let ghost all = self@.results;
        let mut n: usize = 0;
        let mut i: usize = 0;
        while i < self.results.len()
            invariant
                i <= self.results@.len(),
                n <= i,
                all == result_views(self.results@),
                n == total(all.take(i as int), is_deleted()),
            decreases self.results@.len() - i,
        {
            proof {
                total_take(all, i as int, is_deleted());
            }
            match self.results[i].outcome {
                ItemOutcome::Deleted => {
                    n = n + 1;
                },
                _ => {},
            }
            i = i + 1;
        }
        assert(all.take(i as int) =~= all);
        n
    }

    /// How many items failed.
    pub fn failed_count(&self) -> (r: usize)
        ensures
            r == self@.failed(),
    {
        let ghost all = self@.results;
        let mut n: usize = 0;
        let mut i: usize = 0;
        while i < self.results.len()
            invariant
                i <= self.results@.len(),
                n <= i,
                all == result_views(self.results@),
                n == total(all.take(i as int), is_failed()),
            decreases self.results@.len() - i,
        {
            proof {
                total_take(all, i as int, is_failed());
            }
            match self.results[i].outcome {
                ItemOutcome::Failed { .. } => {
                    n = n + 1;
                },
                _ => {},
            }
            i = i + 1;
        }
        assert(all.take(i as int) =~= all);
        n
    }

    /// The bytes that were freed, by the items that were deleted alone.
    pub fn freed_bytes(&self) -> (r: u64)
        requires
            self@.freed() <= u64::MAX,
        ensures
            r == self@.freed(),
    {
        let ghost all = self@.results;
        let mut n: u64 = 0;
        let mut i: usize = 0;
        while i < self.results.len()
            invariant
                i <= self.results@.len(),
                all == result_views(self.results@),
                total(all, freed_by()) <= u64::MAX,
                n == total(all.take(i as int), freed_by()),
            decreases self.results@.len() - i,
        {
            proof {
                total_take(all, i as int, freed_by());
            }
            match self.results[i].outcome {
                ItemOutcome::Deleted => {
                    n = n + self.results[i].size;
                },
                _ => {},
            }
            i = i + 1;
        }
        assert(all.take(i as int) =~= all);
        n
    }

    /// Whether nothing was deleted because nothing was to be.
    pub fn is_dry_run(&self) -> (r: bool)
        ensures
            r == self@.mode.is_dry_run(),
    {
        self.mode.is_dry_run()
    }

    /// How files were deleted.
    pub fn method(&self) -> (r: DeleteMethod)
        ensures
            r == self@.mode.method,
    {
        self.mode.method()
    }
}

// ---- One deletion, item by item ----

/// A deletion that is under way: it names the item that comes next and takes
/// what became of it.
#[derive(Debug)]
pub struct Execution {
    plan: DeletePlan,
    results: Vec<ItemResult>,
    deleted: usize,
    failed: usize,
    freed_bytes: u64,
}

/// The value of an [`Execution`]: its plan, and the results so far.
#[verifier::ext_equal]
pub struct ExecutionView {
    pub plan: DeletePlanView,
    pub results: Seq<ItemResultView>,
}

impl View for Execution {
    type V = ExecutionView;

    closed spec fn view(&self) -> ExecutionView {
        ExecutionView { plan: self.plan@, results: result_views(self.results@) }
    }
}

/// The result for `item` when `outcome` is what became of it.
pub open spec fn result_for(item: PlannedDeletionView, outcome: ItemOutcomeView) -> ItemResultView {
    ItemResultView {
        rule_id: item.rule_id,
        path: item.path,
        size: item.size,
        action: item.action,
        outcome,
    }
}

/// What is recorded of an item: in a dry run nothing was tried, whatever is
/// reported.
pub open spec fn recorded(mode: DeleteModeView, outcome: ItemOutcomeView) -> ItemOutcomeView {
    if mode.is_dry_run() {
        ItemOutcomeView::NotAttempted
    } else {
        outcome
    }
}

/// `outcome` can be what became of an item: where items are deleted, each of
/// them is tried.
pub open spec fn is_possible(mode: DeleteModeView, outcome: ItemOutcomeView) -> bool {
    !mode.is_dry_run() ==> outcome != ItemOutcomeView::NotAttempted
}

impl ExecutionView {
    /// All items are done.
    pub open spec fn is_done(self) -> bool {
        self.results.len() == self.plan.items.len()
    }

    /// Each result belongs to its item, and none is beyond what the mode allows.
    pub open spec fn follows_plan(self) -> bool {
        &&& self.results.len() <= self.plan.items.len()
        &&& forall|i: int|
            0 <= i < self.results.len() ==> (#[trigger] self.results[i]) == result_for(
                self.plan.items[i],
                recorded(self.plan.mode, self.results[i].outcome),
            ) && is_possible(self.plan.mode, self.results[i].outcome)
    }
}

/// The size that a result counts for, deleted or not.
spec fn result_size() -> spec_fn(ItemResultView) -> nat {
    |r: ItemResultView| r.size as nat
}

proof fn sizes_agree(e: ExecutionView, n: int)
    requires
        e.follows_plan(),
        0 <= n <= e.results.len(),
    ensures
        total(e.results.take(n), result_size()) == total(e.plan.items.take(n), item_size()),
    decreases n,
{
    if n > 0 {
        sizes_agree(e, n - 1);
        total_take(e.results, n - 1, result_size());
        total_take(e.plan.items, n - 1, item_size());
        assert(e.results[n - 1] == result_for(
            e.plan.items[n - 1],
            recorded(e.plan.mode, e.results[n - 1].outcome),
        ));
    }
}

/// What is freed is never more than what was planned.
pub proof fn freed_is_within_plan(e: ExecutionView)
    requires
        e.follows_plan(),
    ensures
        total(e.results, freed_by()) <= e.plan.total_size(),
{
    let n = e.results.len() as int;
    total_monotone(e.results, freed_by(), result_size());
    sizes_agree(e, n);
    assert(e.results.take(n) =~= e.results);
    if n > 0 {
        total_take(e.plan.items, n - 1, item_size());
    }
}

impl Execution {
    /// The counters agree with the results, and the results with the plan.
    pub closed spec fn wf(&self) -> bool {
        &&& self@.follows_plan()
        &&& self@.plan.size_fits()
        &&& self.deleted == total(self@.results, is_deleted())
        &&& self.failed == total(self@.results, is_failed())
        &&& self.freed_bytes == total(self@.results, freed_by())
        &&& self.deleted + self.failed <= self@.results.len()
    }

    /// Starts the deletion that `plan` describes.
    pub fn start(plan: DeletePlan) -> (r: (Execution, DeleteProgress))
        requires
            plan@.size_fits(),
        ensures
            r.0.wf(),
            r.0@ == (ExecutionView { plan: plan@, results: Seq::empty() }),
            r.1@ == (DeleteProgressView::Started {
                total_items: plan@.items.len(),
                total_size: plan@.total_size(),
                dry_run: plan@.mode.is_dry_run(),
            }),
    {
        let event = DeleteProgress::Started {
            total_items: plan.item_count(),
            total_size: plan.total_size(),
            dry_run: plan.mode.is_dry_run(),
        };
        let e = Execution { plan, results: Vec::new(), deleted: 0, failed: 0, freed_bytes: 0 };
        assert(e@.results =~= Seq::empty());
        (e, event)
    }

    /// Whether all items are done.
    pub fn is_done(&self) -> (r: bool)
        ensures
            r == self@.is_done(),
    {
        self.results.len() == self.plan.items.len()
    }

    /// The item to delete now. In a dry run there never is one.
    pub fn next_item(&self) -> (r: Option<PlannedDeletion>)
        requires
            self.wf(),
        ensures
            r is Some <==> !self@.is_done() && !self@.plan.mode.is_dry_run(),
            r is Some ==> r->0@ == self@.plan.items[self@.results.len() as int],
    {
        if self.plan.mode.is_dry_run() || self.results.len() == self.plan.items.len() {
            None
        } else {
            let item = &self.plan.items[self.results.len()];
            assert(item@ == self@.plan.items[self@.results.len() as int]);
            Some(item.clone())
        }
    }

    /// Takes what became of the item that is next.
    pub fn record(self, outcome: ItemOutcome) -> (r: (Execution, DeleteProgress))
        requires
            self.wf(),
            !self@.is_done(),
            is_possible(self@.plan.mode, outcome@),
        ensures
            r.0.wf(),
            ({
                let item = self@.plan.items[self@.results.len() as int];
                let result = result_for(item, recorded(self@.plan.mode, outcome@));
                &&& r.0@ == (ExecutionView {
                    plan: self@.plan,
                    results: self@.results.push(result),
                })
                &&& r.1@ == (DeleteProgressView::ItemFinished {
                    path: item.path,
                    outcome: result.outcome,
                    freed: freed_by()(result),
                    done: self@.results.len() + 1,
                    total: self@.plan.items.len(),
                })
            }),
    {
        let ghost before = self@;
        let plan = self.plan;
        let mut results = self.results;
        let index: usize = results.len();
        let total_items: usize = plan.items.len();
        let item = &plan.items[index];
        let outcome = if plan.mode.is_dry_run() {
            ItemOutcome::NotAttempted
        } else {
            outcome
        };
        let ghost result = result_for(item@, outcome@);
        let ghost after = ExecutionView { plan: before.plan, results: before.results.push(result) };
        proof {
            assert(before.plan.items[index as int] == item@);
            total_push(before.results, result, is_deleted());
            total_push(before.results, result, is_failed());
            total_push(before.results, result, freed_by());
            assert(after.follows_plan()) by {
                assert forall|i: int| 0 <= i < after.results.len() implies (
                #[trigger] after.results[i]) == result_for(
                    after.plan.items[i],
                    recorded(after.plan.mode, after.results[i].outcome),
                ) && is_possible(after.plan.mode, after.results[i].outcome) by {
                    if i < before.results.len() {
                        assert(after.results[i] == before.results[i]);
                    }
                }
            }
            freed_is_within_plan(after);
        }
        let freed: u64 = match outcome {
            ItemOutcome::Deleted => item.size,
            _ => 0,
        };
        let deleted: usize = match outcome {
            ItemOutcome::Deleted => self.deleted + 1,
            _ => self.deleted,
        };
        let failed: usize = match outcome {
            ItemOutcome::Failed { .. } => self.failed + 1,
            _ => self.failed,
        };
        let event = DeleteProgress::ItemFinished {
            path: item.path.clone(),
            outcome: outcome.clone(),
            freed,
            done: index + 1,
            total: total_items,
        };
        results.push(
            ItemResult {
                rule_id: item.rule_id.clone(),
                path: item.path.clone(),
                size: item.size,
                action: item.action,
                outcome,
            },
        );
        let freed_bytes: u64 = self.freed_bytes + freed;
        let e = Execution { plan, results, deleted, failed, freed_bytes };
        assert(e@.results =~= after.results);
        assert(e@ == after);
        (e, event)
    }

    /// Ends the deletion when all items are done.
    pub fn finish(self) -> (r: (DeleteOutcome, DeleteProgress))
        requires
            self.wf(),
            self@.is_done(),
        ensures
            r.0@ == (DeleteOutcomeView {
                mode: self@.plan.mode,
                results: self@.results,
                excluded: self@.plan.excluded,
            }),
            r.0@.freed() <= u64::MAX,
            r.0@.is_tried(),
            r.1@ == (DeleteProgressView::Finished {
                deleted: r.0@.deleted(),
                failed: r.0@.failed(),
                freed_bytes: r.0@.freed(),
            }),
    {
        let event = DeleteProgress::Finished {
            deleted: self.deleted,
            failed: self.failed,
            freed_bytes: self.freed_bytes,
        };
        let outcome = DeleteOutcome {
            mode: self.plan.mode,
            results: self.results,
            excluded: self.plan.excluded,
        };
        (outcome, event)
    }
}

/// The values of a list of outcomes.
pub open spec fn outcome_views(outcomes: Seq<ItemOutcome>) -> Seq<ItemOutcomeView> {
    outcomes.map_values(|o: ItemOutcome| o@)
}

/// The results of a plan whose items came to `outcomes`, for the first `n` of
/// them.
pub open spec fn results_for(
    plan: DeletePlanView,
    outcomes: Seq<ItemOutcomeView>,
    n: nat,
) -> Seq<ItemResultView> {
    Seq::new(n, |i: int| result_for(plan.items[i], recorded(plan.mode, outcomes[i])))
}

/// What a plan comes to when its items come to `outcomes`.
pub open spec fn executed(
    plan: DeletePlanView,
    outcomes: Seq<ItemOutcomeView>,
) -> DeleteOutcomeView {
    DeleteOutcomeView {
        mode: plan.mode,
        results: results_for(plan, outcomes, plan.items.len()),
        excluded: plan.excluded,
    }
}

/// What is reported while the items of a plan come to `outcomes`: the start,
/// each item in the order of the plan, the end.
pub open spec fn progress_of(
    plan: DeletePlanView,
    outcomes: Seq<ItemOutcomeView>,
) -> Seq<DeleteProgressView> {
    let results = results_for(plan, outcomes, plan.items.len());
    seq![
        DeleteProgressView::Started {
            total_items: plan.items.len(),
            total_size: plan.total_size(),
            dry_run: plan.mode.is_dry_run(),
        },
    ] + items_progress(plan, outcomes, plan.items.len()) + seq![
        DeleteProgressView::Finished {
            deleted: total(results, is_deleted()),
            failed: total(results, is_failed()),
            freed_bytes: total(results, freed_by()),
        },
    ]
}

/// What is reported of the first `n` items.
pub open spec fn items_progress(
    plan: DeletePlanView,
    outcomes: Seq<ItemOutcomeView>,
    n: nat,
) -> Seq<DeleteProgressView> {
    Seq::new(
        n,
        |i: int|
            {
                let result = result_for(plan.items[i], recorded(plan.mode, outcomes[i]));
                DeleteProgressView::ItemFinished {
                    path: result.path,
                    outcome: result.outcome,
                    freed: freed_by()(result),
                    done: (i + 1) as nat,
                    total: plan.items.len(),
                }
            },
    )
}

/// The values of a list of reports.
pub open spec fn progress_views(events: Seq<DeleteProgress>) -> Seq<DeleteProgressView> {
    events.map_values(|e: DeleteProgress| e@)
}

/// `outcomes` can be what became of the items of `plan`. A dry run has no need
/// of any.
pub open spec fn are_outcomes_of(plan: DeletePlanView, outcomes: Seq<ItemOutcomeView>) -> bool {
    !plan.mode.is_dry_run() ==> {
        &&& outcomes.len() == plan.items.len()
        &&& forall|i: int|
            0 <= i < outcomes.len() ==> is_possible(plan.mode, #[trigger] outcomes[i])
    }
}

/// What `plan` comes to when its items come to `outcomes`.
///
/// A dry run needs no outcomes: nothing is tried.
pub fn execute(plan: DeletePlan, outcomes: &Vec<ItemOutcome>) -> (r: DeleteOutcome)
    requires
        plan@.size_fits(),
        are_outcomes_of(plan@, outcome_views(outcomes@)),
    ensures
        r@ == executed(plan@, outcome_views(outcomes@)),
        r@.freed() <= u64::MAX,
        r@.is_tried(),
{
    let (outcome, _) = execute_with_progress(plan, outcomes);
    outcome
}

/// What `plan` comes to when its items come to `outcomes`, and what is reported
/// on the way.
pub fn execute_with_progress(plan: DeletePlan, outcomes: &Vec<ItemOutcome>) -> (r: (
    DeleteOutcome,
    Vec<DeleteProgress>,
))
    requires
        plan@.size_fits(),
        are_outcomes_of(plan@, outcome_views(outcomes@)),
    ensures
        r.0@ == executed(plan@, outcome_views(outcomes@)),
        r.0@.freed() <= u64::MAX,
        r.0@.is_tried(),
        progress_views(r.1@) == progress_of(plan@, outcome_views(outcomes@)),
{
    let ghost p = plan@;
    let ghost o = outcome_views(outcomes@);
    let dry_run = plan.mode.is_dry_run();
    let total_items: usize = plan.item_count();
    let mut events: Vec<DeleteProgress> = Vec::new();
    let (mut run, started) = Execution::start(plan);
    let ghost head = seq![started@];
    events.push(started);
    let mut i: usize = 0;
    assert(run@.results =~= results_for(p, o, 0));
    assert(progress_views(events@) =~= head + items_progress(p, o, 0));
    while i < total_items
        invariant
            i <= total_items,
            total_items == p.items.len(),
            dry_run == p.mode.is_dry_run(),
            dry_run || outcomes@.len() == total_items,
            are_outcomes_of(p, o),
            o == outcome_views(outcomes@),
            run.wf(),
            run@.plan == p,
            run@.results == results_for(p, o, i as nat),
            progress_views(events@) == head + items_progress(p, o, i as nat),
        decreases total_items - i,
    {
        let outcome = if dry_run {
            ItemOutcome::NotAttempted
        } else {
            assert(o[i as int] == outcomes@[i as int]@);
            outcomes[i].clone()
        };
        let ghost before = progress_views(events@);
        let (next, event) = run.record(outcome);
        run = next;
        assert(recorded(p.mode, outcome@) == recorded(p.mode, o[i as int]));
        assert(run@.results =~= results_for(p, o, (i + 1) as nat));
        events.push(event);
        assert(progress_views(events@) =~= before.push(event@));
        assert(items_progress(p, o, (i + 1) as nat) =~= items_progress(p, o, i as nat).push(
            event@,
        ));
        assert(progress_views(events@) =~= head + items_progress(p, o, (i + 1) as nat));
        i = i + 1;
    }
    let ghost before = progress_views(events@);
    let (outcome, finished) = run.finish();
    events.push(finished);
    assert(progress_views(events@) =~= before.push(finished@));
    assert(progress_views(events@) =~= progress_of(p, o));
    (outcome, events)
}

/// A dry run deletes nothing, fails at nothing and frees nothing, whatever is
/// reported to it.
pub proof fn dry_run_deletes_nothing(plan: DeletePlanView, outcomes: Seq<ItemOutcomeView>)
    requires
        plan.mode.is_dry_run(),
    ensures
        executed(plan, outcomes).deleted() == 0,
        executed(plan, outcomes).failed() == 0,
        executed(plan, outcomes).freed() == 0,
{
    let results = executed(plan, outcomes).results;
    none_counts(results, is_deleted());
    none_counts(results, is_failed());
    none_counts(results, freed_by());
}

proof fn none_counts(results: Seq<ItemResultView>, f: spec_fn(ItemResultView) -> nat)
    requires
        forall|i: int| 0 <= i < results.len() ==> f(#[trigger] results[i]) == 0,
    ensures
        total(results, f) == 0,
    decreases results.len(),
{
    if results.len() > 0 {
        let front = results.drop_last();
        assert(results.last() == results[results.len() - 1]);
        assert forall|i: int| 0 <= i < front.len() implies f(#[trigger] front[i]) == 0 by {
            assert(front[i] == results[i]);
        }
        none_counts(front, f);
    }
}

/// One item that fails stops no other: every item of the plan has its result,
/// in the order of the plan, and it depends on its own outcome alone.
pub proof fn failures_are_isolated(
    plan: DeletePlanView,
    a: Seq<ItemOutcomeView>,
    b: Seq<ItemOutcomeView>,
    i: int,
)
    requires
        0 <= i < plan.items.len(),
        a[i] == b[i],
    ensures
        executed(plan, a).results.len() == plan.items.len(),
        executed(plan, a).results[i] == executed(plan, b).results[i],
        executed(plan, a).results[i].path == plan.items[i].path,
{
}

// ---- What is planned, and what is not ----

/// The path lies below `base`: it goes on where `base` ends, and never climbs.
pub open spec fn goes_on_from(path: FilePathView, base: FilePathView) -> bool {
    &&& base.parts.len() < path.parts.len()
    &&& forall|i: int| 0 <= i < base.parts.len() ==> path.parts[i] == #[trigger] base.parts[i]
    &&& forall|i: int|
        0 <= i < path.parts.len() ==> #[trigger] path.parts[i]
            != crate::path::PathPartView::ParentDir
}

proof fn strictly_under_goes_on(path: FilePathView, base: FilePathView)
    ensures
        path.strictly_under(base) <==> goes_on_from(path, base),
{
    if path.strictly_under(base) {
        assert(base.parts =~= path.parts.take(base.parts.len() as int));
        if base.parts.len() == path.parts.len() {
            assert(path.parts =~= base.parts);
        }
        assert forall|i: int| 0 <= i < base.parts.len() implies path.parts[i]
            == #[trigger] base.parts[i] by {
            assert(path.parts.take(base.parts.len() as int)[i] == path.parts[i]);
        }
        assert forall|i: int| 0 <= i < path.parts.len() implies #[trigger] path.parts[i]
            != crate::path::PathPartView::ParentDir by {
            if path.parts[i] == crate::path::PathPartView::ParentDir {
                assert(path.parts.contains(path.parts[i]));
            }
        }
    }
    if goes_on_from(path, base) {
        assert(base.parts =~= path.parts.subrange(0, base.parts.len() as int));
    }
}

/// An entry is planned where, and only where, it is selected, a rule has its id,
/// the first such rule needs no administrator rights or has them, the base of
/// that rule is known, the path lies below it, the path is in no administrator
/// area that the rule may not touch, and it is not to be moved to the trash out
/// of the trash. The first of these that fails is the reason for which it is
/// excluded. Nothing else of the rule matters.
pub proof fn which_entries_are_planned<P: Platform + ?Sized>(
    platform: &P,
    entry: ScanEntryView,
    rules: Seq<RuleView>,
    mode: DeleteModeView,
    r: int,
)
    requires
        0 <= r <= rules.len(),
        r < rules.len() ==> rules[r].id == entry.rule_id,
        forall|q: int| 0 <= q < r ==> (#[trigger] rules[q]).id != entry.rule_id,
    ensures
        ({
            let d = decision(platform, entry, rules, mode);
            let rule = rules[r];
            let is_known = r < rules.len();
            let has_rights = rule.needs_admin ==> platform.elevated();
            let base = platform.dir_of(rule.base);
            let is_inside = goes_on_from(entry.path, base->0);
            let is_barred = platform.admin(entry.path) && !(rule.needs_admin
                && platform.elevated());
            let is_stuck = rule.base == KnownDir::RecycleBin && mode.method == DeleteMethod::Trash;
            &&& d == Err::<DeleteAction, ExclusionReason>(ExclusionReason::NotSelected)
                <==> !entry.selected
            &&& d == Err::<DeleteAction, ExclusionReason>(ExclusionReason::UnknownRule)
                <==> entry.selected && !is_known
            &&& entry.selected && is_known ==> {
                &&& d == Err::<DeleteAction, ExclusionReason>(ExclusionReason::NeedsAdmin)
                    <==> !has_rights || (base is Some && is_inside && is_barred)
                &&& d == Err::<DeleteAction, ExclusionReason>(ExclusionReason::UnresolvedBase)
                    <==> has_rights && base is None
                &&& d == Err::<DeleteAction, ExclusionReason>(ExclusionReason::OutsideRuleBase)
                    <==> has_rights && base is Some && !is_inside
                &&& d == Err::<DeleteAction, ExclusionReason>(ExclusionReason::RequiresPermanent)
                    <==> has_rights && base is Some && is_inside && !is_barred && is_stuck
                &&& d is Ok <==> has_rights && base is Some && is_inside && !is_barred
                    && !is_stuck
                &&& d is Ok && mode.method == DeleteMethod::Trash ==> d->Ok_0
                    == DeleteAction::ToTrash
                &&& d is Ok && mode.method == DeleteMethod::Permanent ==> d->Ok_0 == (
                if rule.base == KnownDir::RecycleBin {
                    DeleteAction::EmptyContainer
                } else {
                    DeleteAction::RemovePath
                })
            }
        }),
{
    crate::rule::first_rule_is_the_first(rules, entry.rule_id, r);
    if r < rules.len() && platform.dir_of(rules[r].base) is Some {
        strictly_under_goes_on(entry.path, platform.dir_of(rules[r].base)->0);
    }
}

/// An entry that is to be deleted is in the plan with its rule, path, size and
/// files, and one that is not is among what is excluded, with its reason.
pub proof fn every_entry_has_its_place_in_the_plan<P: Platform + ?Sized>(
    platform: &P,
    entries: Seq<ScanEntryView>,
    rules: Seq<RuleView>,
    mode: DeleteModeView,
    i: int,
) -> (k: int)
    requires
        0 <= i < entries.len(),
    ensures
        ({
            let plan = plan_for(platform, entries, rules, mode);
            let d = decision(platform, entries[i], rules, mode);
            &&& plan.mode == mode
            &&& d is Ok ==> 0 <= k < plan.items.len() && plan.items[k] == (PlannedDeletionView {
                rule_id: entries[i].rule_id,
                path: entries[i].path,
                size: entries[i].size,
                file_count: entries[i].file_count,
                action: d->Ok_0,
            })
            &&& d is Err ==> 0 <= k < plan.excluded.len() && plan.excluded[k] == (
            ExcludedEntryView {
                rule_id: entries[i].rule_id,
                path: entries[i].path,
                size: entries[i].size,
                reason: d->Err_0,
            })
        }),
{
    if decision(platform, entries[i], rules, mode) is Ok {
        crate::seqs::filter_map_keeps(entries, planned(platform, rules, mode), i)
    } else {
        crate::seqs::filter_map_keeps(entries, refused(platform, rules, mode), i)
    }
}

/// A plan of more entries is the plan of the first of them, with what becomes of
/// the last added: entries come in their order, and none bears on another.
pub proof fn plans_grow_by_their_entries<P: Platform + ?Sized>(
    platform: &P,
    entries: Seq<ScanEntryView>,
    entry: ScanEntryView,
    rules: Seq<RuleView>,
    mode: DeleteModeView,
)
    ensures
        ({
            let before = plan_for(platform, entries, rules, mode);
            let after = plan_for(platform, entries.push(entry), rules, mode);
            let d = decision(platform, entry, rules, mode);
            &&& d is Ok ==> after.excluded == before.excluded && after.items.len()
                == before.items.len() + 1 && after.items.drop_last() == before.items
                && after.items.last().path == entry.path
            &&& d is Err ==> after.items == before.items && after.excluded.len()
                == before.excluded.len() + 1 && after.excluded.drop_last() == before.excluded
                && after.excluded.last().path == entry.path
        }),
{
    let all = entries.push(entry);
    assert(all.drop_last() =~= entries);
    assert(all.last() == entry);
    let f = planned(platform, rules, mode);
    let g = refused(platform, rules, mode);
    if decision(platform, entry, rules, mode) is Ok {
        assert(all.filter_map(f) =~= entries.filter_map(f).push(f(entry)->0));
        assert(all.filter_map(g) =~= entries.filter_map(g));
    } else {
        assert(all.filter_map(g) =~= entries.filter_map(g).push(g(entry)->0));
        assert(all.filter_map(f) =~= entries.filter_map(f));
    }
}

/// What a request amounts to: deletion for good is asked for by name alone and
/// needs to be confirmed; everything else goes by way of the trash, and nothing
/// is deleted where the trash is not allowed, where a preview is asked for, or
/// where the settings call for one and nothing else was asked for.
pub proof fn what_requests_amount_to(config: Config, request: RequestKind)
    ensures
        ({
            let m = mode_for(config, request);
            let is_preview = request == RequestKind::DryRun;
            let is_default = request == RequestKind::FromConfig && config.dry_run_default;
            let is_permanent = request == RequestKind::PermanentConfirmed || request
                == RequestKind::PermanentUnconfirmed;
            &&& m.method == DeleteMethod::Permanent <==> is_permanent
            &&& m.dry_run_reason == Some(DryRunReason::ExplicitRequest) <==> is_preview
            &&& m.dry_run_reason == Some(DryRunReason::ConfigDefault) <==> is_default
            &&& m.dry_run_reason == Some(DryRunReason::PermanentNotConfirmed) <==> request
                == RequestKind::PermanentUnconfirmed
            &&& m.dry_run_reason == Some(DryRunReason::TrashDisabled) <==> !is_permanent
                && !is_preview && !is_default && !config.use_trash
            &&& m.dry_run_reason is None <==> request == RequestKind::PermanentConfirmed || (
            !is_permanent && !is_preview && !is_default && config.use_trash)
        }),
{
}

// ---- What becomes of a plan ----

/// Each item has one result, in the order of the plan, with its own rule, path,
/// size and action, and with what became of it; in a dry run nothing did.
pub proof fn results_tell_what_became_of_the_items(
    plan: DeletePlanView,
    outcomes: Seq<ItemOutcomeView>,
    i: int,
)
    requires
        0 <= i < plan.items.len(),
    ensures
        ({
            let r = executed(plan, outcomes);
            &&& r.mode == plan.mode
            &&& r.excluded == plan.excluded
            &&& r.results.len() == plan.items.len()
            &&& r.results[i].rule_id == plan.items[i].rule_id
            &&& r.results[i].path == plan.items[i].path
            &&& r.results[i].size == plan.items[i].size
            &&& r.results[i].action == plan.items[i].action
            &&& plan.mode.dry_run_reason is None ==> r.results[i].outcome == outcomes[i]
            &&& plan.mode.dry_run_reason is Some ==> r.results[i].outcome
                == ItemOutcomeView::NotAttempted
        }),
{
}

/// A deleted item counts as one that is deleted and frees its size; a failed one
/// counts as one that failed. Nothing else counts, or frees anything.
pub proof fn what_counts_as_deleted(outcome: DeleteOutcomeView, more: ItemResultView)
    ensures
        ({
            let after = DeleteOutcomeView { results: outcome.results.push(more), ..outcome };
            &&& after.deleted() == outcome.deleted() + (if more.outcome is Deleted {
                1int
            } else {
                0int
            })
            &&& after.failed() == outcome.failed() + (if more.outcome is Failed {
                1int
            } else {
                0int
            })
            &&& after.freed() == outcome.freed() + (if more.outcome is Deleted {
                more.size as int
            } else {
                0int
            })
            &&& outcome.results.len() == 0 ==> outcome.deleted() == 0 && outcome.failed() == 0
                && outcome.freed() == 0
        }),
{
    total_push(outcome.results, more, is_deleted());
    total_push(outcome.results, more, is_failed());
    total_push(outcome.results, more, freed_by());
}

/// The size and the files of a plan are those of its items together.
pub proof fn plans_add_up(plan: DeletePlanView, more: PlannedDeletionView)
    ensures
        ({
            let after = DeletePlanView { items: plan.items.push(more), ..plan };
            &&& after.total_size() == plan.total_size() + more.size
            &&& after.total_file_count() == plan.total_file_count() + more.file_count
            &&& plan.items.len() == 0 ==> plan.total_size() == 0 && plan.total_file_count() == 0
        }),
{
    total_push(plan.items, more, item_size());
    total_push(plan.items, more, item_files());
}

/// A deletion reports that it starts, with how much there is to do, then each
/// item in its turn with what became of it and what it freed, and at last what
/// all of them came to.
pub proof fn what_a_deletion_reports(
    plan: DeletePlanView,
    outcomes: Seq<ItemOutcomeView>,
    i: int,
)
    requires
        outcomes.len() == plan.items.len(),
    ensures
        ({
            let reports = progress_of(plan, outcomes);
            let dry = plan.mode.dry_run_reason is Some;
            &&& reports.len() == plan.items.len() + 2
            &&& reports[0] == (DeleteProgressView::Started {
                total_items: plan.items.len(),
                total_size: plan.total_size(),
                dry_run: dry,
            })
            &&& 0 <= i < plan.items.len() ==> reports[i + 1] == (DeleteProgressView::ItemFinished {
                path: plan.items[i].path,
                outcome: if dry {
                    ItemOutcomeView::NotAttempted
                } else {
                    outcomes[i]
                },
                freed: if !dry && outcomes[i] is Deleted {
                    plan.items[i].size as nat
                } else {
                    0nat
                },
                done: (i + 1) as nat,
                total: plan.items.len(),
            })
            &&& reports.last() is Finished
            &&& dry ==> reports.last() == (DeleteProgressView::Finished {
                deleted: 0,
                failed: 0,
                freed_bytes: 0,
            })
        }),
{
    if plan.mode.dry_run_reason is Some {
        nothing_is_counted_untried(results_for(plan, outcomes, plan.items.len()));
    }
}

proof fn nothing_is_counted_untried(results: Seq<ItemResultView>)
    requires
        forall|i: int|
            0 <= i < results.len() ==> (#[trigger] results[i]).outcome is NotAttempted,
    ensures
        total(results, is_deleted()) == 0,
        total(results, is_failed()) == 0,
        total(results, freed_by()) == 0,
    decreases results.len(),
{
    if results.len() > 0 {
        let front = results.drop_last();
        assert(results.last() == results[results.len() - 1]);
        assert forall|i: int| 0 <= i < front.len() implies (#[trigger] front[i]).outcome is
            NotAttempted by {
            assert(front[i] == results[i]);
        }
        nothing_is_counted_untried(front);
    }
}

/// What a deletion reports at the end is what its items reported one by one.
pub proof fn the_last_report_adds_up(
    plan: DeletePlanView,
    outcomes: Seq<ItemOutcomeView>,
    freed: spec_fn(DeleteProgressView) -> nat,
    gone: spec_fn(DeleteProgressView) -> nat,
)
    requires
        outcomes.len() == plan.items.len(),
        forall|p: DeleteProgressView| #[trigger]
            freed(p) == (match p {
                DeleteProgressView::ItemFinished { freed: f, .. } => f,
                _ => 0nat,
            }),
        forall|p: DeleteProgressView| #[trigger]
            gone(p) == (match p {
                DeleteProgressView::ItemFinished { outcome, .. } => if outcome is Deleted {
                    1nat
                } else {
                    0nat
                },
                _ => 0nat,
            }),
    ensures
        ({
            let reports = progress_of(plan, outcomes);
            &&& reports.last()->freed_bytes == total(reports, freed)
            &&& reports.last()->deleted == total(reports, gone)
        }),
{
    let n = plan.items.len();
    let reports = progress_of(plan, outcomes);
    let first = seq![reports[0]];
    let middle = items_progress(plan, outcomes, n);
    let last = seq![reports.last()];
    assert(reports =~= first + middle + last);
    crate::seqs::total_concat(first + middle, last, freed);
    crate::seqs::total_concat(first, middle, freed);
    crate::seqs::total_concat(first + middle, last, gone);
    crate::seqs::total_concat(first, middle, gone);
    reveal_with_fuel(total, 2);
    assert(freed(reports[0]) == 0 && freed(reports.last()) == 0);
    assert(gone(reports[0]) == 0 && gone(reports.last()) == 0);
    assert(first.drop_last() =~= Seq::empty());
    assert(last.drop_last() =~= Seq::empty());
    reports_follow_results(plan, outcomes, freed, gone, n);
}

proof fn reports_follow_results(
    plan: DeletePlanView,
    outcomes: Seq<ItemOutcomeView>,
    freed: spec_fn(DeleteProgressView) -> nat,
    gone: spec_fn(DeleteProgressView) -> nat,
    n: nat,
)
    requires
        n <= plan.items.len(),
        forall|p: DeleteProgressView| #[trigger]
            freed(p) == (match p {
                DeleteProgressView::ItemFinished { freed: f, .. } => f,
                _ => 0nat,
            }),
        forall|p: DeleteProgressView| #[trigger]
            gone(p) == (match p {
                DeleteProgressView::ItemFinished { outcome, .. } => if outcome is Deleted {
                    1nat
                } else {
                    0nat
                },
                _ => 0nat,
            }),
    ensures
        total(items_progress(plan, outcomes, n), freed) == total(
            results_for(plan, outcomes, n),
            freed_by(),
        ),
        total(items_progress(plan, outcomes, n), gone) == total(
            results_for(plan, outcomes, n),
            is_deleted(),
        ),
    decreases n,
{
    if n > 0 {
        let m = (n - 1) as nat;
        reports_follow_results(plan, outcomes, freed, gone, m);
        let reports = items_progress(plan, outcomes, n);
        let results = results_for(plan, outcomes, n);
        assert(reports.drop_last() =~= items_progress(plan, outcomes, m));
        assert(results.drop_last() =~= results_for(plan, outcomes, m));
        assert(freed(reports.last()) == freed_by()(results.last()));
        assert(gone(reports.last()) == is_deleted()(results.last()));
    }
}

} // verus!
