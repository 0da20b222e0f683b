//! Scanning: from rules and directory listings to candidates for deletion.
//!
//! A rule that takes everything yields one entry for each child of its base, so
//! that the base itself is never the thing that is deleted. A rule that takes
//! some files yields one entry for each of them, so that no other file is
//! deleted along with them.

use crate::config::{Config, RulePref};
use crate::entry::{entry_views, ScanEntry, ScanEntryView};
use crate::i18n::Lang;
use crate::inspect::{annotate_duplicates, annotate_in_use, answers_recorded, are_answers_of};
use crate::path::{parts_before, FilePath, FilePathView, PathPart, PathPartView};
use crate::platform::Platform;
use crate::recommend::{has_counted_duplicates, recommend, recommendation};
use crate::rule::{
    builtin, find_rule, first_rule, permitted_when, rule_views, scannable_rules, views_of_push,
    MatchKind, MatchKindView, Rule, RuleView, Safety,
};
use crate::seqs::{total, total_take};
use crate::text::{chars_of, lowercase, text_of, texts_of, to_lowercase};
use vstd::prelude::*;

verus! {

/// How deep below its base a rule looks.
pub const MAX_DEPTH: usize = 32;

/// After how many files progress is reported.
pub const PROGRESS_FILE_INTERVAL: u64 = 512;

/// The nanoseconds of one day.
pub const NANOS_PER_DAY: i128 = 86_400_000_000_000;

/// Why a rule is not scanned.
#[derive(Debug, Clone, Copy, PartialEq, Eq, Structural)]
pub enum SkipReason {
    /// Administrator rights are missing.
    NeedsAdmin,
    /// Its base cannot be resolved.
    UnknownBase,
    /// Its base cannot be read.
    Unreadable,
    /// It takes old files and does not say how old.
    MissingThreshold,
}

/// How far a scan has come. `Started` comes first and `Finished` last, but for
/// the closer look that may follow.
#[derive(Debug, PartialEq, Eq)]
pub enum ScanProgress {
    /// The scan has started.
    Started {
        /// How many rules are scanned.
        total_rules: usize,
    },
    /// A rule is not scanned.
    RuleSkipped {
        /// The rule.
        rule_id: String,
        /// Why.
        reason: SkipReason,
    },
    /// A rule is being scanned.
    RuleStarted {
        /// The rule.
        rule_id: String,
        /// Where it looks.
        base: FilePath,
    },
    /// So much of a rule has been scanned.
    Walking {
        /// The rule.
        rule_id: String,
        /// The files that were looked at.
        files_scanned: u64,
        /// The bytes of those that it takes.
        bytes_scanned: u64,
    },
    /// A rule has been scanned.
    RuleFinished {
        /// The rule.
        rule_id: String,
        /// How many entries it yielded.
        entries: usize,
        /// Their size in bytes.
        total_size: u64,
    },
    /// All rules have been scanned.
    Finished {
        /// How many entries there are.
        entries: usize,
        /// Their size in bytes.
        total_size: u64,
    },
    /// So many entries have been looked at more closely.
    Inspecting {
        /// How many.
        done: usize,
        /// Of how many.
        total: usize,
    },
}

/// The value of a [`ScanProgress`].
#[verifier::ext_equal]
pub enum ScanProgressView {
    Started { total_rules: nat },
    RuleSkipped { rule_id: Seq<char>, reason: SkipReason },
    RuleStarted { rule_id: Seq<char>, base: FilePathView },
    Walking { rule_id: Seq<char>, files_scanned: nat, bytes_scanned: nat },
    RuleFinished { rule_id: Seq<char>, entries: nat, total_size: nat },
    Finished { entries: nat, total_size: nat },
    Inspecting { done: nat, total: nat },
}

impl View for ScanProgress {
    type V = ScanProgressView;

    open spec fn view(&self) -> ScanProgressView {
        match self {
            ScanProgress::Started { total_rules } => ScanProgressView::Started {
                total_rules: *total_rules as nat,
            },
            ScanProgress::RuleSkipped { rule_id, reason } => ScanProgressView::RuleSkipped {
                rule_id: rule_id@,
                reason: *reason,
            },
            ScanProgress::RuleStarted { rule_id, base } => ScanProgressView::RuleStarted {
                rule_id: rule_id@,
                base: base@,
            },
            ScanProgress::Walking { rule_id, files_scanned, bytes_scanned } => {
                ScanProgressView::Walking {
                    rule_id: rule_id@,
                    files_scanned: *files_scanned as nat,
                    bytes_scanned: *bytes_scanned as nat,
                }
            },
            ScanProgress::RuleFinished { rule_id, entries, total_size } => {
                ScanProgressView::RuleFinished {
                    rule_id: rule_id@,
                    entries: *entries as nat,
                    total_size: *total_size as nat,
                }
            },
            ScanProgress::Finished { entries, total_size } => ScanProgressView::Finished {
                entries: *entries as nat,
                total_size: *total_size as nat,
            },
            ScanProgress::Inspecting { done, total } => ScanProgressView::Inspecting {
                done: *done as nat,
                total: *total as nat,
            },
        }
    }
}

/// The values of a list of reports.
pub open spec fn progress_views(events: Seq<ScanProgress>) -> Seq<ScanProgressView> {
    events.map_values(|e: ScanProgress| e@)
}

// ---- Which rules ----

/// The rules with one of the given safeties.
pub open spec fn with_safety(safeties: Seq<Safety>) -> spec_fn(RuleView) -> bool {
    |r: RuleView| safeties.contains(r.safety)
}

pub(crate) fn contains_safety(safeties: &[Safety], safety: Safety) -> (r: bool)
    ensures
        r == safeties@.contains(safety),
{
    let mut i: usize = 0;
    while i < safeties.len()
        invariant
            i <= safeties@.len(),
            forall|j: int| 0 <= j < i ==> safeties@[j] != safety,
        decreases safeties@.len() - i,
    {
        if safeties[i] == safety {
            return true;
        }
        i = i + 1;
    }
    false
}

/// The rules of `rules` with one of the given safeties, in their order.
pub(crate) fn keep_safeties(rules: &Vec<Rule>, safeties: &[Safety]) -> (r: Vec<Rule>)
    ensures
        rule_views(r@) == rule_views(rules@).filter(with_safety(safeties@)),
{
    let ghost all = rule_views(rules@);
    let ghost keep = with_safety(safeties@);
    let mut r: Vec<Rule> = Vec::new();
    let mut i: usize = 0;
    assert(rule_views(r@) =~= all.take(0).filter(keep)) by {
        reveal(Seq::filter);
    }
    while i < rules.len()
        invariant
            i <= rules@.len(),
            all == rule_views(rules@),
            keep == with_safety(safeties@),
            rule_views(r@) == all.take(i as int).filter(keep),
        decreases rules@.len() - i,
    {
        let rule = &rules[i];
        proof {
            assert(all.take(i + 1) =~= all.take(i as int).push(rule@));
            all.take(i as int).lemma_filter_push(rule@, keep);
        }
        if contains_safety(safeties, rule.safety) {
            let copy = rule.clone();
            proof {
                views_of_push(r@, copy);
            }
            r.push(copy);
        }
        i = i + 1;
    }
    assert(all.take(i as int) =~= all);
    r
}

/// The built-in rules with one of the given safeties that a process can scan.
pub fn rules_for_safeties(safeties: &[Safety], config: &Config, elevated: bool) -> (r: Vec<Rule>)
    ensures
        rule_views(r@) == builtin(*config).filter(permitted_when(elevated)).filter(
            with_safety(safeties@),
        ),
{
    let rules = scannable_rules(config, elevated);
    keep_safeties(&rules, safeties)
}

/// The safeties of a scan: all of them, or only what is safe.
pub open spec fn scope(all: bool) -> Seq<Safety> {
    if all {
        seq![Safety::Safe, Safety::Caution, Safety::Review]
    } else {
        seq![Safety::Safe]
    }
}

/// The safeties of a scan: all of them, or only what is safe.
pub fn safety_scope(all: bool) -> (r: Vec<Safety>)
    ensures
        r@ == scope(all),
{
    let mut r: Vec<Safety> = Vec::new();
    r.push(Safety::Safe);
    if all {
        r.push(Safety::Caution);
        r.push(Safety::Review);
    }
    assert(r@ =~= scope(all));
    r
}

// ---- What the user wants ----

/// Whether an entry is selected: as the user wants it, or as is recommended.
pub open spec fn chosen(entry: ScanEntryView, config: Config) -> bool {
    match config.pref(entry.rule_id) {
        RulePref::AlwaysSelect => true,
        RulePref::Exclude => false,
        RulePref::AskEachTime => entry.recommended,
    }
}

/// The entry, selected as the user wants it.
pub open spec fn with_pref(entry: ScanEntryView, config: Config) -> ScanEntryView {
    ScanEntryView { selected: chosen(entry, config), ..entry }
}

/// The entries, selected as the user wants them.
pub open spec fn with_prefs(entries: Seq<ScanEntryView>, config: Config) -> Seq<ScanEntryView> {
    entries.map_values(|e: ScanEntryView| with_pref(e, config))
}

pub(crate) fn wanted(entry: &ScanEntry, config: &Config) -> (r: bool)
    ensures
        r == chosen(entry@, *config),
{
    match config.rule_pref(entry.rule_id.as_str()) {
        RulePref::AlwaysSelect => true,
        RulePref::Exclude => false,
        RulePref::AskEachTime => entry.recommended,
    }
}

/// Selects each entry as the user wants it. Nothing else changes.
pub fn apply_rule_prefs(entries: &mut Vec<ScanEntry>, config: &Config)
    ensures
        entry_views(final(entries)@) == with_prefs(entry_views(old(entries)@), *config),
{
    let ghost before = entry_views(entries@);
    let n: usize = entries.len();
    let mut i: usize = 0;
    while i < n
        invariant
            i <= n,
            n == entries@.len(),
            n == before.len(),
            forall|j: int| 0 <= j < i ==> (#[trigger] entries@[j])@ == with_pref(before[j], *config),
            forall|j: int| i <= j < n ==> (#[trigger] entries@[j])@ == before[j],
        decreases n - i,
    {
        let mut entry = entries[i].clone();
        entry.selected = wanted(&entry, config);
        entries.set(i, entry);
        i = i + 1;
    }
    assert(entry_views(entries@) =~= with_prefs(before, *config));
}

/// Selecting as the user wants it twice is the same as once.
pub proof fn prefs_are_idempotent(entries: Seq<ScanEntryView>, config: Config)
    ensures
        with_prefs(with_prefs(entries, config), config) == with_prefs(entries, config),
{
    assert(with_prefs(with_prefs(entries, config), config) =~= with_prefs(entries, config));
}

/// What the user always excludes is never selected, and what the user always
/// selects is, whatever is recommended.
pub proof fn wishes_come_before_recommendations(
    entries: Seq<ScanEntryView>,
    config: Config,
    i: int,
)
    requires
        0 <= i < entries.len(),
    ensures
        config.pref(entries[i].rule_id) == RulePref::Exclude ==> !with_prefs(
            entries,
            config,
        )[i].selected,
        config.pref(entries[i].rule_id) == RulePref::AlwaysSelect ==> with_prefs(
            entries,
            config,
        )[i].selected,
{
}

// ---- Recommendations ----

/// The entry with its recommendation, where its rule is known.
pub open spec fn with_recommendation(
    entry: ScanEntryView,
    rules: Seq<RuleView>,
    lang: Lang,
) -> ScanEntryView {
    match first_rule(rules, entry.rule_id) {
        Some(rule) => {
            let r = recommendation(entry, rule, lang);
            ScanEntryView {
                recommended: r.recommended,
                selected: r.recommended,
                reason: r.reason,
                ..entry
            }
        },
        None => entry,
    }
}

/// The entries with their recommendations.
pub open spec fn with_recommendations(
    entries: Seq<ScanEntryView>,
    rules: Seq<RuleView>,
    lang: Lang,
) -> Seq<ScanEntryView> {
    entries.map_values(|e: ScanEntryView| with_recommendation(e, rules, lang))
}

/// Every duplicate group that is spoken of has entries.
pub open spec fn have_counted_duplicates(entries: Seq<ScanEntryView>) -> bool {
    forall|i: int| 0 <= i < entries.len() ==> has_counted_duplicates(#[trigger] entries[i])
}

/// Gives each entry its recommendation, and selects it accordingly. An entry
/// whose rule is unknown stays as it is.
pub fn apply_recommendations(entries: &mut Vec<ScanEntry>, rules: &[Rule], lang: Lang)
    requires
        have_counted_duplicates(entry_views(old(entries)@)),
    ensures
        entry_views(final(entries)@) == with_recommendations(
            entry_views(old(entries)@),
            rule_views(rules@),
            lang,
        ),
{
    let ghost before = entry_views(entries@);
    let n: usize = entries.len();
    let mut i: usize = 0;
    while i < n
        invariant
            i <= n,
            n == entries@.len(),
            n == before.len(),
            have_counted_duplicates(before),
            forall|j: int|
                0 <= j < i ==> (#[trigger] entries@[j])@ == with_recommendation(
                    before[j],
                    rule_views(rules@),
                    lang,
                ),
            forall|j: int| i <= j < n ==> (#[trigger] entries@[j])@ == before[j],
        decreases n - i,
    {
        let mut entry = entries[i].clone();
        assert(entry@ == before[i as int]);
        match find_rule(rules, entry.rule_id.as_str()) {
            Some(rule) => {
                let advice = recommend(&entry, rule, lang);
                entry.recommended = advice.recommended;
                entry.selected = advice.recommended;
                entry.reason = advice.reason;
                entries.set(i, entry);
            },
            None => {},
        }
        i = i + 1;
    }
    assert(entry_views(entries@) =~= with_recommendations(before, rule_views(rules@), lang));
}

/// Giving recommendations twice is the same as once: no note is added twice.
pub proof fn recommendations_are_idempotent(
    entries: Seq<ScanEntryView>,
    rules: Seq<RuleView>,
    lang: Lang,
)
    ensures
        with_recommendations(with_recommendations(entries, rules, lang), rules, lang)
            == with_recommendations(entries, rules, lang),
{
    assert(with_recommendations(with_recommendations(entries, rules, lang), rules, lang)
        =~= with_recommendations(entries, rules, lang));
}

// ---- Where to look ----

/// A rule and where it looks.
#[derive(Debug)]
pub struct ScanTarget {
    /// The rule.
    pub rule: Rule,
    /// Where it looks.
    pub base: FilePath,
}

/// The value of a [`ScanTarget`].
#[verifier::ext_equal]
pub struct ScanTargetView {
    pub rule: RuleView,
    pub base: FilePathView,
}

impl View for ScanTarget {
    type V = ScanTargetView;

    open spec fn view(&self) -> ScanTargetView {
        ScanTargetView { rule: self.rule@, base: self.base@ }
    }
}

/// The values of a list of targets.
pub open spec fn target_views(targets: Seq<ScanTarget>) -> Seq<ScanTargetView> {
    targets.map_values(|t: ScanTarget| t@)
}

/// Where a rule looks, or why it is not scanned.
pub open spec fn resolution<P: Platform + ?Sized>(platform: &P, rule: RuleView) -> Result<
    FilePathView,
    SkipReason,
> {
    let elevated = platform.elevated();
    if !rule.permitted(elevated) {
        Err(SkipReason::NeedsAdmin)
    } else if rule.match_kind is OlderThan && rule.age_threshold_days is None {
        Err(SkipReason::MissingThreshold)
    } else {
        match platform.dir_of(rule.base) {
            None => Err(SkipReason::UnknownBase),
            Some(base) => if platform.admin(base) && !rule.may_touch_admin(elevated) {
                Err(SkipReason::NeedsAdmin)
            } else {
                Ok(base)
            },
        }
    }
}

/// Finds out where `rule` looks, or why it is not scanned.
pub fn resolve_target<P: Platform + ?Sized>(platform: &P, rule: &Rule) -> (r: Result<
    ScanTarget,
    SkipReason,
>)
    ensures
        match r {
            Ok(target) => target@.rule == rule@ && resolution(platform, rule@) == Ok::<
                FilePathView,
                SkipReason,
            >(target@.base),
            Err(reason) => resolution(platform, rule@) == Err::<FilePathView, SkipReason>(reason),
        },
{
    let elevated = platform.is_elevated();
    if !rule.is_permitted(elevated) {
        return Err(SkipReason::NeedsAdmin);
    }
    let by_age = match rule.match_kind {
        MatchKind::OlderThan => true,
        _ => false,
    };
    if by_age && rule.age_threshold_days.is_none() {
        return Err(SkipReason::MissingThreshold);
    }
    let base = match platform.known_dir(rule.base) {
        Some(base) => base,
        None => {
            return Err(SkipReason::UnknownBase);
        },
    };
    if platform.requires_admin(&base) && !rule.may_touch_admin_area(elevated) {
        return Err(SkipReason::NeedsAdmin);
    }
    Ok(ScanTarget { rule: rule.clone(), base })
}

/// The target of a rule that is scanned.
pub open spec fn target_of<P: Platform + ?Sized>(platform: &P) -> spec_fn(RuleView) -> Option<
    ScanTargetView,
> {
    |rule: RuleView|
        match resolution(platform, rule) {
            Ok(base) => Some(ScanTargetView { rule, base }),
            Err(_) => None,
        }
}

/// The report of a rule that is not scanned.
pub open spec fn skip_of<P: Platform + ?Sized>(platform: &P) -> spec_fn(RuleView) -> Option<
    ScanProgressView,
> {
    |rule: RuleView|
        match resolution(platform, rule) {
            Ok(_) => None,
            Err(reason) => Some(ScanProgressView::RuleSkipped { rule_id: rule.id, reason }),
        }
}

/// Finds out where each rule looks, in the order of the rules, and reports
/// those that are not scanned.
pub fn resolve_targets<P: Platform + ?Sized>(platform: &P, rules: &[Rule]) -> (r: (
    Vec<ScanTarget>,
    Vec<ScanProgress>,
))
    ensures
        target_views(r.0@) == rule_views(rules@).filter_map(target_of(platform)),
        progress_views(r.1@) == seq![ScanProgressView::Started { total_rules: r.0@.len() }]
            + rule_views(rules@).filter_map(skip_of(platform)),
{
    let ghost all = rule_views(rules@);
    let ghost accept = target_of(platform);
    let ghost refuse = skip_of(platform);
    let mut targets: Vec<ScanTarget> = Vec::new();
    let mut skipped: Vec<ScanProgress> = Vec::new();
    let mut i: usize = 0;
    assert(target_views(targets@) =~= all.take(0).filter_map(accept));
    assert(progress_views(skipped@) =~= all.take(0).filter_map(refuse));
    while i < rules.len()
        invariant
            i <= rules@.len(),
            all == rule_views(rules@),
            accept == target_of(platform),
            refuse == skip_of(platform),
            target_views(targets@) == all.take(i as int).filter_map(accept),
            progress_views(skipped@) == all.take(i as int).filter_map(refuse),
        decreases rules@.len() - i,
    {
        let rule = &rules[i];
        let ghost old_targets = targets@;
        let ghost old_skipped = skipped@;
        proof {
            all.lemma_filter_map_take_succ(accept, i as int);
            all.lemma_filter_map_take_succ(refuse, i as int);
            assert(all[i as int] == rule@);
        }
        match resolve_target(platform, rule) {
            Ok(target) => {
                targets.push(target);
                assert(target_views(targets@) =~= target_views(old_targets) + seq![target@]);
            },
            Err(reason) => {
                let event = ScanProgress::RuleSkipped { rule_id: rule.id.clone(), reason };
                skipped.push(event);
                assert(progress_views(skipped@) =~= progress_views(old_skipped) + seq![event@]);
            },
        }
        assert(target_views(targets@) =~= all.take(i + 1).filter_map(accept));
        assert(progress_views(skipped@) =~= all.take(i + 1).filter_map(refuse));
        i = i + 1;
    }
    assert(all.take(i as int) =~= all);
    let mut events: Vec<ScanProgress> = Vec::new();
    events.push(ScanProgress::Started { total_rules: targets.len() });
    let ghost head = events@;
    let ghost tail = skipped@;
    events.append(&mut skipped);
    assert(events@ =~= head + tail);
    assert(progress_views(events@) =~= progress_views(head) + progress_views(tail));
    assert(progress_views(head) =~= seq![
        ScanProgressView::Started { total_rules: targets@.len() },
    ]);
    (targets, events)
}

/// Every rule is either scanned or reported as skipped.
pub proof fn every_rule_is_scanned_or_skipped<P: Platform + ?Sized>(
    platform: &P,
    rules: Seq<RuleView>,
)
    ensures
        rules.filter_map(target_of(platform)).len() + rules.filter_map(skip_of(platform)).len()
            == rules.len(),
{
    crate::seqs::filter_map_parts(rules, target_of(platform), skip_of(platform));
}

/// A rule that needs no administrator rights never looks into an administrator
/// area, not even with those rights.
pub proof fn ordinary_rules_stay_out_of_admin_areas<P: Platform + ?Sized>(
    platform: &P,
    rule: RuleView,
)
    requires
        !rule.needs_admin,
        resolution(platform, rule) is Ok,
    ensures
        !platform.admin(resolution(platform, rule)->Ok_0),
{
}

// ---- What is there ----

/// A file that was listed.
#[derive(Debug, PartialEq, Eq)]
pub struct FileInfo {
    /// Where it is.
    pub path: FilePath,
    /// Its size in bytes.
    pub size: u64,
    /// When it was last modified, in nanoseconds since the epoch, where known.
    pub modified: Option<i128>,
}

/// The value of a [`FileInfo`].
#[verifier::ext_equal]
pub struct FileInfoView {
    pub path: FilePathView,
    pub size: u64,
    pub modified: Option<i128>,
}

impl View for FileInfo {
    type V = FileInfoView;

    open spec fn view(&self) -> FileInfoView {
        FileInfoView { path: self.path@, size: self.size, modified: self.modified }
    }
}

impl Clone for FileInfo {
    fn clone(&self) -> (r: FileInfo)
        ensures
            r@ == self@,
    {
        FileInfo { path: self.path.clone(), size: self.size, modified: self.modified }
    }
}

/// The values of a list of files.
pub open spec fn file_views(files: Seq<FileInfo>) -> Seq<FileInfoView> {
    files.map_values(|f: FileInfo| f@)
}

/// Something that was listed in a directory. What cannot be read is not listed.
#[derive(Debug, PartialEq, Eq)]
pub enum DirItem {
    /// A link, which is never followed.
    Symlink {
        /// Where it is.
        path: FilePath,
        /// The size of the link itself.
        size: u64,
    },
    /// A directory.
    Dir {
        /// Where it is.
        path: FilePath,
        /// What it holds.
        items: Vec<DirItem>,
    },
    /// A file.
    File(FileInfo),
}

/// The file, where the item is one.
pub open spec fn as_file() -> spec_fn(DirItem) -> Option<FileInfoView> {
    |item: DirItem|
        match item {
            DirItem::File(f) => Some(f@),
            _ => None,
        }
}

/// The files in a directory at the depth `depth` below where the walk began, in
/// the order in which they are visited: its own files, then those of its
/// directories, the last directory first. Links are not followed, and nothing
/// deeper than [`MAX_DEPTH`] is visited.
pub open spec fn visited(items: Seq<DirItem>, depth: nat) -> Seq<FileInfoView>
    decreases MAX_DEPTH + 1 - depth, items.len() + 1,
{
    if depth > MAX_DEPTH {
        Seq::empty()
    } else {
        items.filter_map(as_file()) + visited_below(items, depth)
    }
}

/// The files in the directories among `items`, the last directory first.
pub open spec fn visited_below(items: Seq<DirItem>, depth: nat) -> Seq<FileInfoView>
    decreases MAX_DEPTH + 1 - depth, items.len(),
{
    if items.len() == 0 || depth > MAX_DEPTH {
        Seq::empty()
    } else {
        (match items.last() {
            DirItem::Dir { items: inner, .. } => visited(inner@, depth + 1),
            _ => Seq::empty(),
        }) + visited_below(items.drop_last(), depth)
    }
}

/// Appends the files that are visited to `out`.
fn visit(items: &Vec<DirItem>, depth: usize, out: &mut Vec<FileInfo>)
    requires
        depth <= MAX_DEPTH + 1,
    ensures
        file_views(final(out)@) == file_views(old(out)@) + visited(items@, depth as nat),
    decreases MAX_DEPTH + 1 - depth,
{
    let ghost before = file_views(out@);
    if depth > MAX_DEPTH {
        assert(file_views(out@) =~= before + visited(items@, depth as nat));
        return;
    }
    let mut i: usize = 0;
    assert(file_views(out@) =~= before + items@.take(0).filter_map(as_file()));
    while i < items.len()
        invariant
            i <= items@.len(),
            file_views(out@) == before + items@.take(i as int).filter_map(as_file()),
        decreases items@.len() - i,
    {
        let ghost now = out@;
        proof {
            items@.lemma_filter_map_take_succ(as_file(), i as int);
        }
        match &items[i] {
            DirItem::File(f) => {
                let copy = f.clone();
                out.push(copy);
                assert(file_views(out@) =~= file_views(now) + seq![f@]);
            },
            _ => {},
        }
        i = i + 1;
        assert(file_views(out@) =~= before + items@.take(i as int).filter_map(as_file()));
    }
    assert(items@.take(i as int) =~= items@);
    let ghost own = items@.filter_map(as_file());
    let ghost below = visited_below(items@, depth as nat);
    let mut n: usize = items.len();
    let ghost mut done: Seq<FileInfoView> = Seq::empty();
    assert(items@.take(n as int) =~= items@);
    assert(done + visited_below(items@.take(n as int), depth as nat) =~= below);
    assert(file_views(out@) =~= before + own + done);
    while n > 0
        invariant
            n <= items@.len(),
            depth <= MAX_DEPTH,
            file_views(out@) == before + own + done,
            done + visited_below(items@.take(n as int), depth as nat) == below,
        decreases n,
    {
        let ghost front = items@.take(n as int);
        assert(front.drop_last() =~= items@.take(n - 1));
        assert(front.last() == items@[n - 1]);
        match &items[n - 1] {
            DirItem::Dir { items: inner, .. } => {
                visit(inner, depth + 1, out);
                proof {
                    let more = visited(inner@, (depth + 1) as nat);
                    assert(before + own + done + more =~= before + own + (done + more));
                    assert(done + (more + visited_below(items@.take(n - 1), depth as nat)) =~= (done
                        + more) + visited_below(items@.take(n - 1), depth as nat));
                    done = done + more;
                }
            },
            _ => {
                assert(Seq::<FileInfoView>::empty() + visited_below(
                    items@.take(n - 1),
                    depth as nat,
                ) =~= visited_below(items@.take(n - 1), depth as nat));
            },
        }
        n = n - 1;
    }
    assert(done =~= below);
    assert(file_views(out@) =~= before + visited(items@, depth as nat));
}

/// The files below a directory with the listing `items`.
pub fn walk_files(items: &Vec<DirItem>) -> (r: Vec<FileInfo>)
    ensures
        file_views(r@) == visited(items@, 0),
{
    let mut out: Vec<FileInfo> = Vec::new();
    visit(items, 0, &mut out);
    assert(file_views(out@) =~= visited(items@, 0));
    out
}

/// The size of a file.
pub open spec fn file_size() -> spec_fn(FileInfoView) -> nat {
    |f: FileInfoView| f.size as nat
}

/// The later of two times, where they are known.
pub open spec fn later(a: Option<i128>, b: Option<i128>) -> Option<i128> {
    match (a, b) {
        (Some(x), Some(y)) => if x >= y {
            Some(x)
        } else {
            Some(y)
        },
        (Some(x), None) => Some(x),
        _ => b,
    }
}

/// The latest time at which one of the files was modified.
pub open spec fn latest(files: Seq<FileInfoView>) -> Option<i128>
    decreases files.len(),
{
    if files.len() == 0 {
        None
    } else {
        later(latest(files.drop_last()), files.last().modified)
    }
}

/// The size, the number and the latest modification of the files below a
/// directory with the listing `items`.
pub fn aggregate_dir(items: &Vec<DirItem>) -> (r: (u64, u64, Option<i128>))
    requires
        total(visited(items@, 0), file_size()) <= u64::MAX,
    ensures
        r.0 == total(visited(items@, 0), file_size()),
        r.1 == visited(items@, 0).len(),
        r.2 == latest(visited(items@, 0)),
{
    let files = walk_files(items);
    let ghost all = file_views(files@);
    let mut size: u64 = 0;
    let mut newest: Option<i128> = None;
    let mut i: usize = 0;
    while i < files.len()
        invariant
            i <= files@.len(),
            all == file_views(files@),
            total(all, file_size()) <= u64::MAX,
            size == total(all.take(i as int), file_size()),
            newest == latest(all.take(i as int)),
        decreases files@.len() - i,
    {
        proof {
            total_take(all, i as int, file_size());
            assert(all.take(i + 1).drop_last() =~= all.take(i as int));
            assert(all.take(i + 1).last() == files@[i as int]@);
        }
        size = size + files[i].size;
        newest = match (newest, files[i].modified) {
            (Some(x), Some(y)) => if x >= y {
                Some(x)
            } else {
                Some(y)
            },
            (Some(x), None) => Some(x),
            (None, m) => m,
        };
        i = i + 1;
    }
    assert(all.take(i as int) =~= all);
    (size, files.len() as u64, newest)
}

/// The whole days from `modified` to `now`. A time in the future counts as
/// today.
pub open spec fn days_between(modified: i128, now: i128) -> u64 {
    if now < modified {
        0
    } else if (now - modified) / (NANOS_PER_DAY as int) > u64::MAX {
        u64::MAX
    } else {
        ((now - modified) / (NANOS_PER_DAY as int)) as u64
    }
}

/// The whole days from `modified` to `now`.
///
/// A time in the future counts as today: a file that may be in use is rather
/// left alone than called old.
pub fn age_days_between(modified: i128, now: i128) -> (r: u64)
    ensures
        r == days_between(modified, now),
{
    if now < modified {
        return 0;
    }
    match now.checked_sub(modified) {
        Some(span) => {
            let days: i128 = span / NANOS_PER_DAY;
            if days > u64::MAX as i128 {
                u64::MAX
            } else {
                days as u64
            }
        },
        None => {
            assert((now - modified) / (NANOS_PER_DAY as int) > u64::MAX) by {
                assert(now - modified > i128::MAX);
            }
            u64::MAX
        },
    }
}

/// The entry for something that was found.
pub open spec fn entry_for(
    rule_id: Seq<char>,
    path: FilePathView,
    size: u64,
    file_count: u64,
    modified: Option<i128>,
    now: i128,
) -> ScanEntryView {
    ScanEntryView {
        rule_id,
        path,
        size,
        file_count,
        modified,
        age_days: match modified {
            Some(m) => Some(days_between(m, now)),
            None => None,
        },
        in_use: None,
        duplicate: None,
        recommended: false,
        reason: Seq::empty(),
        selected: false,
    }
}

/// The entry for something that was found: neither recommended nor selected
/// yet.
pub fn build_entry(
    rule_id: &str,
    path: FilePath,
    size: u64,
    file_count: u64,
    modified: Option<i128>,
    now: i128,
) -> (r: ScanEntry)
    ensures
        r@ == entry_for(rule_id@, path@, size, file_count, modified, now),
{
    let age_days: Option<u64> = match modified {
        Some(m) => Some(age_days_between(m, now)),
        None => None,
    };
    ScanEntry {
        rule_id: rule_id.to_owned(),
        path,
        size,
        file_count,
        modified,
        age_days,
        in_use: None,
        duplicate: None,
        recommended: false,
        reason: String::new(),
        selected: false,
    }
}

// ---- Which files ----

/// What follows the last dot of a name, where something comes before that dot.
pub open spec fn extension_of(name: Seq<char>) -> Option<Seq<char>> {
    if exists|i: int| #[trigger] is_last_dot(name, i) && i > 0 {
        let i = choose|i: int| #[trigger] is_last_dot(name, i) && i > 0;
        Some(name.skip(i + 1))
    } else {
        None
    }
}

/// The last dot of `name` is at `i`.
pub open spec fn is_last_dot(name: Seq<char>, i: int) -> bool {
    &&& 0 <= i < name.len()
    &&& name[i] == '.'
    &&& forall|j: int| i < j < name.len() ==> name[j] != '.'
}

/// The extension of the last component of a path.
pub open spec fn path_extension(path: FilePathView) -> Option<Seq<char>> {
    if path.parts.len() == 0 {
        None
    } else {
        match path.parts.last() {
            PathPartView::Normal(name) => extension_of(name),
            _ => None,
        }
    }
}

/// The path has one of the extensions, in whatever case.
pub open spec fn has_extension(path: FilePathView, extensions: Seq<Seq<char>>) -> bool {
    match path_extension(path) {
        Some(ext) => exists|i: int|
            0 <= i < extensions.len() && lowercase(#[trigger] extensions[i]) == lowercase(ext),
        None => false,
    }
}

fn extension_text(name: &str) -> (r: Option<String>)
    ensures
        match r {
            Some(ext) => extension_of(name@) == Some(ext@),
            None => extension_of(name@) is None,
        },
{
    let chars = chars_of(name);
    let mut n: usize = chars.len();
    while n > 0
        invariant
            n <= chars@.len(),
            chars@ == name@,
            forall|j: int| n <= j < chars@.len() ==> chars@[j] != '.',
        decreases n,
    {
        n = n - 1;
        if chars[n] == '.' {
            assert(is_last_dot(name@, n as int));
            if n == 0 {
                assert(extension_of(name@) is None) by {
                    if exists|i: int| #[trigger] is_last_dot(name@, i) && i > 0 {
                        let i = choose|i: int| #[trigger] is_last_dot(name@, i) && i > 0;
                        assert(name@[i] == '.');
                    }
                }
                return None;
            }
            let ext = text_of(&chars, n + 1, chars.len());
            proof {
                let i = choose|i: int| #[trigger] is_last_dot(name@, i) && i > 0;
                assert(is_last_dot(name@, i));
                assert(i == n);
                assert(chars@.subrange(n + 1, chars@.len() as int) =~= name@.skip(n + 1));
            }
            return Some(ext);
        }
    }
    assert(extension_of(name@) is None) by {
        if exists|i: int| #[trigger] is_last_dot(name@, i) && i > 0 {
            let i = choose|i: int| #[trigger] is_last_dot(name@, i) && i > 0;
            assert(chars@[i] == '.');
        }
    }
    None
}

/// Whether the path has one of the extensions, in whatever case. A name that
/// only begins with a dot has none.
pub fn matches_extension(path: &FilePath, extensions: &Vec<String>) -> (r: bool)
    ensures
        r == has_extension(path@, texts_of(extensions@)),
{
    let n: usize = path.parts.len();
    if n == 0 {
        return false;
    }
    assert(path@.parts.last() == path.parts@[n - 1]@);
    let ext = match &path.parts[n - 1] {
        PathPart::Normal(name) => match extension_text(name.as_str()) {
            Some(ext) => ext,
            None => {
                return false;
            },
        },
        _ => {
            return false;
        },
    };
    let folded = to_lowercase(ext.as_str());
    let mut i: usize = 0;
    while i < extensions.len()
        invariant
            i <= extensions@.len(),
            folded@ == lowercase(ext@),
            path_extension(path@) == Some(ext@),
            forall|j: int|
                0 <= j < i ==> lowercase(#[trigger] texts_of(extensions@)[j]) != lowercase(
                    ext@,
                ),
        decreases extensions@.len() - i,
    {
        let candidate = to_lowercase(extensions[i].as_str());
        if candidate == folded {
            assert(lowercase(texts_of(extensions@)[i as int]) == lowercase(ext@));
            return true;
        }
        i = i + 1;
    }
    false
}

/// A rule that takes some files takes this one.
pub open spec fn takes_file(rule: RuleView, file: FileInfoView, now: i128) -> bool {
    match rule.match_kind {
        MatchKindView::All => true,
        MatchKindView::Extension(extensions) => has_extension(file.path, extensions),
        MatchKindView::OlderThan => {
            let threshold = match rule.age_threshold_days {
                Some(days) => days,
                None => 0,
            };
            file.modified is Some && days_between(file.modified->0, now) >= threshold
        },
    }
}

fn takes(rule: &Rule, file: &FileInfo, now: i128) -> (r: bool)
    ensures
        r == takes_file(rule@, file@, now),
{
    match &rule.match_kind {
        MatchKind::All => true,
        MatchKind::Extension(extensions) => matches_extension(&file.path, extensions),
        MatchKind::OlderThan => {
            let threshold: u64 = match rule.age_threshold_days {
                Some(days) => days,
                None => 0,
            };
            match file.modified {
                Some(m) => age_days_between(m, now) >= threshold,
                None => false,
            }
        },
    }
}

// ---- Walking a rule ----

/// The item as an entry of a rule that takes everything: a link or a file by
/// itself, a directory with all that is below it, unless that is nothing.
pub open spec fn child_entry(rule_id: Seq<char>, now: i128) -> spec_fn(DirItem) -> Option<
    ScanEntryView,
> {
    |item: DirItem|
        match item {
            DirItem::Symlink { path, size } => Some(
                entry_for(rule_id, path@, size, 1, None, now),
            ),
            DirItem::Dir { path, items } => {
                let files = visited(items@, 0);
                if files.len() > 0 {
                    Some(
                        entry_for(
                            rule_id,
                            path@,
                            total(files, file_size()) as u64,
                            files.len() as u64,
                            latest(files),
                            now,
                        ),
                    )
                } else {
                    None
                }
            },
            DirItem::File(f) => Some(
                entry_for(rule_id, f@.path, f@.size, 1, f@.modified, now),
            ),
        }
}

/// The file as an entry of a rule that takes some files.
pub open spec fn file_entry(rule: RuleView, now: i128) -> spec_fn(FileInfoView) -> Option<
    ScanEntryView,
> {
    |f: FileInfoView|
        if takes_file(rule, f, now) {
            Some(entry_for(rule.id, f.path, f.size, 1, f.modified, now))
        } else {
            None
        }
}

/// The entries of a rule in the order in which they are found.
pub open spec fn found(rule: RuleView, items: Seq<DirItem>, now: i128) -> Seq<ScanEntryView> {
    match rule.match_kind {
        MatchKindView::All => items.filter_map(child_entry(rule.id, now)),
        _ => visited(items, 0).filter_map(file_entry(rule, now)),
    }
}

/// Where an item is.
pub open spec fn item_path(item: DirItem) -> FilePathView {
    match item {
        DirItem::Symlink { path, .. } => path@,
        DirItem::Dir { path, .. } => path@,
        DirItem::File(f) => f@.path,
    }
}

/// The entry comes from the listing of its target: it is what lies right in the
/// base of a rule that takes everything, or a file below it that the rule takes.
pub open spec fn is_found_in(
    e: ScanEntryView,
    target: ScanTargetView,
    items: Seq<DirItem>,
    now: i128,
) -> bool {
    &&& e.rule_id == target.rule.id
    &&& match target.rule.match_kind {
        MatchKindView::All => exists|i: int|
            0 <= i < items.len() && e.path == item_path(#[trigger] items[i]),
        _ => exists|i: int|
            {
                &&& 0 <= i < visited(items, 0).len()
                &&& e.path == (#[trigger] visited(items, 0)[i]).path
                &&& takes_file(target.rule, visited(items, 0)[i], now)
            },
    }
}

/// Every entry comes from the listing of one of the targets.
pub open spec fn are_found_in(
    entries: Seq<ScanEntryView>,
    targets: Seq<ScanTargetView>,
    listings: Seq<Vec<DirItem>>,
    now: i128,
) -> bool {
    forall|i: int|
        0 <= i < entries.len() ==> exists|k: int|
            0 <= k < targets.len() && is_found_in(
                #[trigger] entries[i],
                #[trigger] targets[k],
                listing_at(listings, k),
                now,
            )
}

/// The bytes that an item counts for.
pub open spec fn item_bytes() -> spec_fn(DirItem) -> nat {
    |item: DirItem|
        match item {
            DirItem::Symlink { size, .. } => size as nat,
            DirItem::Dir { items, .. } => total(visited(items@, 0), file_size()),
            DirItem::File(f) => f.size as nat,
        }
}

/// The sizes of what is listed can be counted.
pub open spec fn is_listing_countable(rule: RuleView, items: Seq<DirItem>) -> bool {
    match rule.match_kind {
        MatchKindView::All => total(items, item_bytes()) <= u64::MAX,
        _ => total(visited(items, 0), file_size()) <= u64::MAX,
    }
}

/// What each file that is looked at adds to the bytes that are reported.
pub open spec fn taken_bytes(rule: RuleView, now: i128) -> spec_fn(FileInfoView) -> nat {
    |f: FileInfoView|
        if takes_file(rule, f, now) {
            f.size as nat
        } else {
            0nat
        }
}

/// The size of an entry.
pub open spec fn entry_size() -> spec_fn(ScanEntryView) -> nat {
    |e: ScanEntryView| e.size as nat
}

/// The reports on the way through `looked_at`, one each
/// [`PROGRESS_FILE_INTERVAL`] of them, with the bytes so far.
pub open spec fn walking<A>(
    rule_id: Seq<char>,
    looked_at: Seq<A>,
    bytes: spec_fn(A) -> nat,
) -> Seq<ScanProgressView>
    decreases looked_at.len(),
{
    if looked_at.len() == 0 {
        Seq::empty()
    } else {
        let before = walking(rule_id, looked_at.drop_last(), bytes);
        if looked_at.len() % (PROGRESS_FILE_INTERVAL as nat) == 0 {
            before.push(
                ScanProgressView::Walking {
                    rule_id,
                    files_scanned: looked_at.len(),
                    bytes_scanned: total(looked_at, bytes),
                },
            )
        } else {
            before
        }
    }
}

/// The reports on the way through the entries or files of a rule.
pub open spec fn walking_reports(
    rule: RuleView,
    items: Seq<DirItem>,
    now: i128,
) -> Seq<ScanProgressView> {
    match rule.match_kind {
        MatchKindView::All => walking(rule.id, found(rule, items, now), entry_size()),
        _ => walking(rule.id, visited(items, 0), taken_bytes(rule, now)),
    }
}

/// The report that is due after `files_scanned` files, if one is.
pub fn report_progress(rule_id: &str, files_scanned: u64, bytes_scanned: u64) -> (r: Option<
    ScanProgress,
>)
    ensures
        r is Some <==> files_scanned % PROGRESS_FILE_INTERVAL == 0,
        r is Some ==> r->0@ == (ScanProgressView::Walking {
            rule_id: rule_id@,
            files_scanned: files_scanned as nat,
            bytes_scanned: bytes_scanned as nat,
        }),
{
    if files_scanned % PROGRESS_FILE_INTERVAL == 0 {
        Some(
            ScanProgress::Walking { rule_id: rule_id.to_owned(), files_scanned, bytes_scanned },
        )
    } else {
        None
    }
}

proof fn found_children_are_bounded(rule_id: Seq<char>, items: Seq<DirItem>, now: i128, n: int)
    requires
        0 <= n <= items.len(),
        total(items, item_bytes()) <= u64::MAX,
    ensures
        total(items.take(n).filter_map(child_entry(rule_id, now)), entry_size()) <= total(
            items.take(n),
            item_bytes(),
        ),
        total(items.take(n), item_bytes()) <= u64::MAX,
    decreases n,
{
    let f = child_entry(rule_id, now);
    if n == 0 {
        assert(items.take(0).filter_map(f) =~= Seq::empty());
    } else {
        found_children_are_bounded(rule_id, items, now, n - 1);
        total_take(items, n - 1, item_bytes());
        items.lemma_filter_map_take_succ(f, n - 1);
        match f(items[n - 1]) {
            Some(e) => {
                let before = items.take(n - 1).filter_map(f);
                assert(items.take(n).filter_map(f) =~= before.push(e));
                crate::seqs::total_push(before, e, entry_size());
            },
            None => {
                assert(items.take(n).filter_map(f) =~= items.take(n - 1).filter_map(f));
            },
        }
    }
}

/// The entries of a rule that takes everything, in the order of the listing,
/// and the reports on the way.
pub fn walk_all(items: &Vec<DirItem>, rule_id: &str, now: i128) -> (r: (
    Vec<ScanEntry>,
    Vec<ScanProgress>,
))
    requires
        total(items@, item_bytes()) <= u64::MAX,
    ensures
        entry_views(r.0@) == items@.filter_map(child_entry(rule_id@, now)),
        progress_views(r.1@) == walking(rule_id@, entry_views(r.0@), entry_size()),
{
    let ghost f = child_entry(rule_id@, now);
    let mut entries: Vec<ScanEntry> = Vec::new();
    let mut events: Vec<ScanProgress> = Vec::new();
    let mut bytes: u64 = 0;
    let mut i: usize = 0;
    assert(entry_views(entries@) =~= items@.take(0).filter_map(f));
    assert(progress_views(events@) =~= walking(rule_id@, entry_views(entries@), entry_size()));
    while i < items.len()
        invariant
            i <= items@.len(),
            f == child_entry(rule_id@, now),
            total(items@, item_bytes()) <= u64::MAX,
            entry_views(entries@) == items@.take(i as int).filter_map(f),
            progress_views(events@) == walking(rule_id@, entry_views(entries@), entry_size()),
            bytes == total(entry_views(entries@), entry_size()),
        decreases items@.len() - i,
    {
        let ghost before = entry_views(entries@);
        let ghost reported = progress_views(events@);
        proof {
            items@.lemma_filter_map_take_succ(f, i as int);
            total_take(items@, i as int, item_bytes());
            found_children_are_bounded(rule_id@, items@, now, i + 1);
        }
        let new_entry = match &items[i] {
            DirItem::Symlink { path, size } => Some(
                build_entry(rule_id, path.clone(), *size, 1, None, now),
            ),
            DirItem::Dir { path, items: inner } => {
                let (size, count, modified) = aggregate_dir(inner);
                if count > 0 {
                    Some(build_entry(rule_id, path.clone(), size, count, modified, now))
                } else {
                    None
                }
            },
            DirItem::File(file) => Some(
                build_entry(rule_id, file.path.clone(), file.size, 1, file.modified, now),
            ),
        };
        match new_entry {
            Some(entry) => {
                assert(f(items@[i as int]) == Some(entry@));
                let ghost after = before.push(entry@);
                proof {
                    crate::seqs::total_push(before, entry@, entry_size());
                    assert(items@.take(i + 1).filter_map(f) =~= after);
                    assert(after.drop_last() =~= before);
                }
                bytes = bytes + entry.size;
                entries.push(entry);
                assert(entry_views(entries@) =~= after);
                match report_progress(rule_id, entries.len() as u64, bytes) {
                    Some(event) => {
                        events.push(event);
                        assert(progress_views(events@) =~= reported.push(event@));
                    },
                    None => {},
                }
                assert(progress_views(events@) == walking(rule_id@, after, entry_size()));
            },
            None => {
                assert(f(items@[i as int]) is None);
                assert(items@.take(i + 1).filter_map(f) =~= before);
            },
        }
        i = i + 1;
    }
    assert(items@.take(i as int) =~= items@);
    (entries, events)
}

/// The entries of a rule that takes some files, in the order in which they are
/// visited, and the reports on the way.
pub fn walk_matched_files(items: &Vec<DirItem>, rule: &Rule, now: i128) -> (r: (
    Vec<ScanEntry>,
    Vec<ScanProgress>,
))
    requires
        total(visited(items@, 0), file_size()) <= u64::MAX,
    ensures
        entry_views(r.0@) == visited(items@, 0).filter_map(file_entry(rule@, now)),
        progress_views(r.1@) == walking(
            rule@.id,
            visited(items@, 0),
            taken_bytes(rule@, now),
        ),
{
    let files = walk_files(items);
    let ghost all = file_views(files@);
    let ghost f = file_entry(rule@, now);
    let ghost counted = taken_bytes(rule@, now);
    let mut entries: Vec<ScanEntry> = Vec::new();
    let mut events: Vec<ScanProgress> = Vec::new();
    let mut bytes: u64 = 0;
    let mut i: usize = 0;
    assert(entry_views(entries@) =~= all.take(0).filter_map(f));
    assert(progress_views(events@) =~= walking(rule@.id, all.take(0), counted));
    while i < files.len()
        invariant
            i <= files@.len(),
            all == file_views(files@),
            f == file_entry(rule@, now),
            counted == taken_bytes(rule@, now),
            total(all, file_size()) <= u64::MAX,
            entry_views(entries@) == all.take(i as int).filter_map(f),
            progress_views(events@) == walking(rule@.id, all.take(i as int), counted),
            bytes == total(all.take(i as int), counted),
        decreases files@.len() - i,
    {
        let file = &files[i];
        let ghost before = entry_views(entries@);
        let ghost reported = progress_views(events@);
        proof {
            all.lemma_filter_map_take_succ(f, i as int);
            assert(all[i as int] == file@);
            total_take(all, i as int, counted);
            crate::seqs::total_monotone(all, counted, file_size());
            assert(all.take(i + 1).drop_last() =~= all.take(i as int));
        }
        if takes(rule, file, now) {
            let entry = build_entry(
                rule.id.as_str(),
                file.path.clone(),
                file.size,
                1,
                file.modified,
                now,
            );
            bytes = bytes + entry.size;
            entries.push(entry);
            assert(entry_views(entries@) =~= before + seq![entry@]);
        }
        assert(entry_views(entries@) =~= all.take(i + 1).filter_map(f));
        match report_progress(rule.id.as_str(), (i + 1) as u64, bytes) {
            Some(event) => {
                events.push(event);
                assert(progress_views(events@) =~= reported.push(event@));
            },
            None => {},
        }
        assert(progress_views(events@) == walking(rule@.id, all.take(i + 1), counted));
        i = i + 1;
    }
    assert(all.take(i as int) =~= all);
    (entries, events)
}

// ---- In the order of paths ----

/// The entry `i` comes before the entry `j`: by path, and by their order where
/// the paths are the same.
pub open spec fn comes_first(entries: Seq<ScanEntryView>, i: int, j: int) -> bool {
    parts_before(entries[i].path.parts, entries[j].path.parts) || (entries[i].path.parts
        == entries[j].path.parts && i < j)
}

proof fn comes_first_total(entries: Seq<ScanEntryView>, i: int, j: int)
    requires
        i != j,
    ensures
        comes_first(entries, i, j) || comes_first(entries, j, i),
{
    if entries[i].path.parts != entries[j].path.parts {
        crate::path::parts_before_total(entries[i].path.parts, entries[j].path.parts);
    }
}

proof fn comes_first_transitive(entries: Seq<ScanEntryView>, i: int, j: int, k: int)
    requires
        comes_first(entries, i, j),
        comes_first(entries, j, k),
    ensures
        comes_first(entries, i, k),
{
    let x = entries[i].path.parts;
    let y = entries[j].path.parts;
    let z = entries[k].path.parts;
    if parts_before(x, y) && parts_before(y, z) {
        crate::path::parts_before_transitive(x, y, z);
    }
}

/// `order` names all entries, in the order in which they come.
pub open spec fn is_path_order(entries: Seq<ScanEntryView>, order: Seq<int>) -> bool {
    &&& order.len() == entries.len()
    &&& forall|a: int| 0 <= a < order.len() ==> 0 <= (#[trigger] order[a]) < entries.len()
    &&& forall|i: int| 0 <= i < entries.len() ==> #[trigger] order.contains(i)
    &&& forall|a: int, b: int|
        0 <= a < b < order.len() ==> comes_first(
            entries,
            #[trigger] order[a],
            #[trigger] order[b],
        )
}

/// `sorted` are the entries in the order of their paths.
pub open spec fn is_sorted_by_path(
    entries: Seq<ScanEntryView>,
    sorted: Seq<ScanEntryView>,
) -> bool {
    exists|order: Seq<int>| #[trigger]
        is_path_order(entries, order) && sorted =~= order.map_values(|i: int| entries[i])
}

/// `order` names entries in the order in which they come.
spec fn is_in_order(entries: Seq<ScanEntryView>, order: Seq<usize>) -> bool {
    forall|a: int, b: int|
        0 <= a < b < order.len() ==> comes_first(
            entries,
            (#[trigger] order[a]) as int,
            (#[trigger] order[b]) as int,
        )
}

fn is_first(entries: &Vec<ScanEntry>, i: usize, j: usize) -> (r: bool)
    requires
        i < entries@.len(),
        j < entries@.len(),
    ensures
        r == comes_first(entry_views(entries@), i as int, j as int),
{
    assert(entry_views(entries@)[i as int] == entries@[i as int]@);
    assert(entry_views(entries@)[j as int] == entries@[j as int]@);
    entries[i].path.is_before(&entries[j].path) || (entries[i].path.same_place(&entries[j].path)
        && i < j)
}

/// The indices of two ordered lists, `left` below `mid` and `right` from there,
/// in order.
fn merge(entries: &Vec<ScanEntry>, left: &Vec<usize>, right: &Vec<usize>, mid: usize) -> (r: Vec<
    usize,
>)
    requires
        left@.len() + right@.len() <= entries@.len(),
        forall|a: int| 0 <= a < left@.len() ==> (#[trigger] left@[a]) < mid,
        forall|b: int|
            0 <= b < right@.len() ==> mid <= (#[trigger] right@[b]) && right@[b] < entries@.len(),
        mid <= entries@.len(),
        is_in_order(entry_views(entries@), left@),
        is_in_order(entry_views(entries@), right@),
    ensures
        r@.len() == left@.len() + right@.len(),
        is_in_order(entry_views(entries@), r@),
        forall|k: int|
            0 <= k < r@.len() ==> left@.contains(#[trigger] r@[k]) || right@.contains(r@[k]),
        forall|a: int| 0 <= a < left@.len() ==> r@.contains(#[trigger] left@[a]),
        forall|b: int| 0 <= b < right@.len() ==> r@.contains(#[trigger] right@[b]),
{
    let ghost all = entry_views(entries@);
    let mut r: Vec<usize> = Vec::new();
    let mut a: usize = 0;
    let mut b: usize = 0;
    while a < left.len() || b < right.len()
        invariant
            a <= left@.len(),
            b <= right@.len(),
            r@.len() == a + b,
            all == entry_views(entries@),
            left@.len() + right@.len() <= entries@.len(),
            forall|x: int| 0 <= x < left@.len() ==> (#[trigger] left@[x]) < mid,
            forall|x: int|
                0 <= x < right@.len() ==> mid <= (#[trigger] right@[x]) && right@[x]
                    < entries@.len(),
            mid <= entries@.len(),
            is_in_order(all, left@),
            is_in_order(all, right@),
            is_in_order(all, r@),
            forall|k: int, x: int|
                0 <= k < r@.len() && a <= x < left@.len() ==> comes_first(
                    all,
                    (#[trigger] r@[k]) as int,
                    (#[trigger] left@[x]) as int,
                ),
            forall|k: int, x: int|
                0 <= k < r@.len() && b <= x < right@.len() ==> comes_first(
                    all,
                    (#[trigger] r@[k]) as int,
                    (#[trigger] right@[x]) as int,
                ),
            forall|k: int|
                0 <= k < r@.len() ==> left@.contains(#[trigger] r@[k]) || right@.contains(r@[k]),
            forall|x: int| 0 <= x < a ==> r@.contains(#[trigger] left@[x]),
            forall|x: int| 0 <= x < b ==> r@.contains(#[trigger] right@[x]),
        decreases left@.len() - a + right@.len() - b,
    {
        let ghost before = r@;
        let take_left = b == right.len() || (a < left.len() && is_first(entries, left[a], right[b]));
        if take_left {
            let next: usize = left[a];
            r.push(next);
            proof {
                assert(left@[a as int] == next);
                assert forall|x: int| a < x < left@.len() implies comes_first(
                    all,
                    next as int,
                    (#[trigger] left@[x]) as int,
                ) by {
                    assert(comes_first(all, left@[a as int] as int, left@[x] as int));
                }
                assert forall|x: int| b <= x < right@.len() implies comes_first(
                    all,
                    next as int,
                    (#[trigger] right@[x]) as int,
                ) by {
                    if x > b {
                        assert(comes_first(all, right@[b as int] as int, right@[x] as int));
                        comes_first_transitive(
                            all,
                            next as int,
                            right@[b as int] as int,
                            right@[x] as int,
                        );
                    }
                }
            }
            a = a + 1;
        } else {
            let next: usize = right[b];
            r.push(next);
            proof {
                assert(right@[b as int] == next);
                assert forall|x: int| b < x < right@.len() implies comes_first(
                    all,
                    next as int,
                    (#[trigger] right@[x]) as int,
                ) by {
                    assert(comes_first(all, right@[b as int] as int, right@[x] as int));
                }
                assert forall|x: int| a <= x < left@.len() implies comes_first(
                    all,
                    next as int,
                    (#[trigger] left@[x]) as int,
                ) by {
                    comes_first_total(all, next as int, left@[a as int] as int);
                    if x > a {
                        assert(comes_first(all, left@[a as int] as int, left@[x] as int));
                        comes_first_transitive(
                            all,
                            next as int,
                            left@[a as int] as int,
                            left@[x] as int,
                        );
                    }
                }
            }
            b = b + 1;
        }
        proof {
            let last = r@[before.len() as int];
            assert forall|k: int| 0 <= k < before.len() implies r@[k] == before[k] by {}
            assert forall|v: usize| before.contains(v) implies r@.contains(v) by {
                let k = choose|k: int| 0 <= k < before.len() && before[k] == v;
                assert(r@[k] == v);
            }
            assert(r@.contains(last));
        }
    }
    r
}

/// The indices from `lo` up to `hi`, in order.
fn ordered(entries: &Vec<ScanEntry>, lo: usize, hi: usize) -> (r: Vec<usize>)
    requires
        lo <= hi <= entries@.len(),
    ensures
        r@.len() == hi - lo,
        forall|k: int| 0 <= k < r@.len() ==> lo <= (#[trigger] r@[k]) && r@[k] < hi,
        forall|i: usize| lo <= i < hi ==> #[trigger] r@.contains(i),
        is_in_order(entry_views(entries@), r@),
    decreases hi - lo,
{
    if hi - lo <= 1 {
        let mut r: Vec<usize> = Vec::new();
        if hi - lo == 1 {
            r.push(lo);
            assert(r@[0] == lo);
        }
        return r;
    }
    let mid: usize = lo + (hi - lo) / 2;
    let left = ordered(entries, lo, mid);
    let right = ordered(entries, mid, hi);
    let r = merge(entries, &left, &right, mid);
    proof {
        assert forall|k: int| 0 <= k < r@.len() implies lo <= (#[trigger] r@[k]) && r@[k]
            < hi by {
            if left@.contains(r@[k]) {
                let x = choose|x: int| 0 <= x < left@.len() && left@[x] == r@[k];
                assert(left@[x] < mid);
            } else {
                let x = choose|x: int| 0 <= x < right@.len() && right@[x] == r@[k];
                assert(right@[x] < hi);
            }
        }
        assert forall|i: usize| lo <= i < hi implies #[trigger] r@.contains(i) by {
            if i < mid {
                assert(left@.contains(i));
                let x = choose|x: int| 0 <= x < left@.len() && left@[x] == i;
                assert(r@.contains(left@[x]));
            } else {
                assert(right@.contains(i));
                let x = choose|x: int| 0 <= x < right@.len() && right@[x] == i;
                assert(r@.contains(right@[x]));
            }
        }
    }
    r
}

/// The entries in the order of their paths.
pub fn sort_by_path(entries: &Vec<ScanEntry>) -> (r: Vec<ScanEntry>)
    ensures
        is_sorted_by_path(entry_views(entries@), entry_views(r@)),
        r@.len() == entries@.len(),
{
    let ghost all = entry_views(entries@);
    let order = ordered(entries, 0, entries.len());
    let mut r: Vec<ScanEntry> = Vec::new();
    let mut k: usize = 0;
    while k < order.len()
        invariant
            k <= order@.len(),
            order@.len() == entries@.len(),
            all == entry_views(entries@),
            forall|x: int| 0 <= x < order@.len() ==> (#[trigger] order@[x]) < entries@.len(),
            r@.len() == k,
            forall|x: int| 0 <= x < k ==> (#[trigger] r@[x])@ == all[order@[x] as int],
        decreases order@.len() - k,
    {
        assert(order@[k as int] < entries@.len());
        r.push(entries[order[k]].clone());
        k = k + 1;
    }
    proof {
        let path_order = order@.map_values(|i: usize| i as int);
        assert forall|i: int| 0 <= i < all.len() implies #[trigger] path_order.contains(i) by {
            assert(order@.contains(i as usize));
            let x = choose|x: int| 0 <= x < order@.len() && order@[x] == i as usize;
            assert(path_order[x] == i);
        }
        assert forall|a: int, b: int| 0 <= a < b < path_order.len() implies comes_first(
            all,
            #[trigger] path_order[a],
            #[trigger] path_order[b],
        ) by {
            assert(comes_first(all, order@[a] as int, order@[b] as int));
        }
        assert(is_path_order(all, path_order));
        assert(entry_views(r@) =~= path_order.map_values(|i: int| all[i]));
    }
    r
}

proof fn comes_first_asymmetric(entries: Seq<ScanEntryView>, i: int, j: int)
    ensures
        !(comes_first(entries, i, j) && comes_first(entries, j, i)),
{
    crate::path::parts_before_asymmetric(entries[i].path.parts, entries[j].path.parts);
    if entries[i].path.parts == entries[j].path.parts {
        crate::path::parts_before_irreflexive(entries[i].path.parts);
    }
}

proof fn orders_agree(entries: Seq<ScanEntryView>, x: Seq<int>, y: Seq<int>, k: int)
    requires
        is_path_order(entries, x),
        is_path_order(entries, y),
        0 <= k < x.len(),
        forall|j: int| 0 <= j < k ==> #[trigger] x[j] == y[j],
    ensures
        x[k] == y[k],
{
    let a = x[k];
    let b = y[k];
    assert(y.contains(a));
    assert(x.contains(b));
    let m = choose|m: int| 0 <= m < y.len() && y[m] == a;
    let n = choose|n: int| 0 <= n < x.len() && x[n] == b;
    comes_first_asymmetric(entries, a, a);
    comes_first_asymmetric(entries, b, b);
    comes_first_asymmetric(entries, a, b);
    if m < k {
        assert(x[m] == y[m]);
        assert(comes_first(entries, x[m], x[k]));
    }
    if n < k {
        assert(x[n] == y[n]);
        assert(comes_first(entries, y[n], y[k]));
    }
    if m > k && n > k {
        assert(comes_first(entries, y[k], y[m]));
        assert(comes_first(entries, x[k], x[n]));
    }
}

proof fn orders_agree_up_to(entries: Seq<ScanEntryView>, x: Seq<int>, y: Seq<int>, k: int)
    requires
        is_path_order(entries, x),
        is_path_order(entries, y),
        0 <= k <= x.len(),
    ensures
        forall|j: int| 0 <= j < k ==> #[trigger] x[j] == y[j],
    decreases k,
{
    if k > 0 {
        orders_agree_up_to(entries, x, y, k - 1);
        orders_agree(entries, x, y, k - 1);
    }
}

/// There is one order of paths: the same entries always come out in the same
/// order.
pub proof fn sorting_is_unique(
    entries: Seq<ScanEntryView>,
    a: Seq<ScanEntryView>,
    b: Seq<ScanEntryView>,
)
    requires
        is_sorted_by_path(entries, a),
        is_sorted_by_path(entries, b),
    ensures
        a == b,
{
    let x = choose|order: Seq<int>| #[trigger]
        is_path_order(entries, order) && a =~= order.map_values(|i: int| entries[i]);
    let y = choose|order: Seq<int>| #[trigger]
        is_path_order(entries, order) && b =~= order.map_values(|i: int| entries[i]);
    orders_agree_up_to(entries, x, y, x.len() as int);
    assert(x =~= y);
}

/// The entries in the order of their paths.
pub open spec fn by_path(entries: Seq<ScanEntryView>) -> Seq<ScanEntryView> {
    choose|sorted: Seq<ScanEntryView>| is_sorted_by_path(entries, sorted)
}

/// The place of the entry `n` in the order of the entries before it.
proof fn place_in_order(entries: Seq<ScanEntryView>, order: Seq<int>, n: int) -> (p: int)
    requires
        0 <= n < entries.len(),
        is_path_order(entries.take(n), order),
    ensures
        0 <= p <= n,
        forall|k: int| 0 <= k < p ==> comes_first(entries, #[trigger] order[k], n),
        forall|k: int| p <= k < n ==> comes_first(entries, n, #[trigger] order[k]),
{
    let first = entries.take(n);
    assert forall|a: int, b: int| 0 <= a < b < n implies comes_first(
        entries,
        #[trigger] order[a],
        #[trigger] order[b],
    ) by {
        assert(comes_first(first, order[a], order[b]));
    }
    place_up_to(entries, order, n, n)
}

proof fn place_up_to(entries: Seq<ScanEntryView>, order: Seq<int>, n: int, m: int) -> (p: int)
    requires
        0 <= m <= order.len(),
        0 <= n < entries.len(),
        forall|a: int| 0 <= a < order.len() ==> 0 <= (#[trigger] order[a]) < n,
        forall|a: int, b: int|
            0 <= a < b < order.len() ==> comes_first(
                entries,
                #[trigger] order[a],
                #[trigger] order[b],
            ),
    ensures
        0 <= p <= m,
        forall|k: int| 0 <= k < p ==> comes_first(entries, #[trigger] order[k], n),
        forall|k: int| p <= k < m ==> comes_first(entries, n, #[trigger] order[k]),
    decreases m,
{
    if m == 0 {
        0
    } else {
        comes_first_total(entries, order[m - 1], n);
        if comes_first(entries, order[m - 1], n) {
            assert forall|k: int| 0 <= k < m implies comes_first(
                entries,
                #[trigger] order[k],
                n,
            ) by {
                if k < m - 1 {
                    assert(comes_first(entries, order[k], order[m - 1]));
                    comes_first_transitive(entries, order[k], order[m - 1], n);
                }
            }
            m
        } else {
            place_up_to(entries, order, n, m - 1)
        }
    }
}

proof fn path_order_exists(entries: Seq<ScanEntryView>) -> (order: Seq<int>)
    ensures
        is_path_order(entries, order),
    decreases entries.len(),
{
    if entries.len() == 0 {
        Seq::empty()
    } else {
        let n = entries.len() - 1;
        let first = entries.take(n);
        let before = path_order_exists(first);
        let p = place_in_order(entries, before, n);
        let order = before.insert(p, n);
        assert forall|i: int| 0 <= i < entries.len() implies #[trigger] order.contains(i) by {
            if i == n {
                assert(order[p] == n);
            } else {
                assert(before.contains(i));
                let k = choose|k: int| 0 <= k < before.len() && before[k] == i;
                assert(order[if k < p {
                    k
                } else {
                    k + 1
                }] == i);
            }
        }
        assert forall|a: int, b: int| 0 <= a < b < order.len() implies comes_first(
            entries,
            #[trigger] order[a],
            #[trigger] order[b],
        ) by {
            let x = if a < p {
                a
            } else {
                a - 1
            };
            let y = if b < p {
                b
            } else {
                b - 1
            };
            if a == p {
                assert(order[b] == before[y]);
            } else if b == p {
                assert(order[a] == before[x]);
            } else {
                assert(order[a] == before[x] && order[b] == before[y]);
                assert(comes_first(first, before[x], before[y]));
            }
        }
        order
    }
}

/// All entries can be put in the order of their paths, and [`by_path`] is that
/// order.
pub proof fn by_path_is_sorted(entries: Seq<ScanEntryView>)
    ensures
        is_sorted_by_path(entries, by_path(entries)),
{
    let order = path_order_exists(entries);
    let sorted = order.map_values(|i: int| entries[i]);
    assert(is_sorted_by_path(entries, sorted));
}

/// What is in the order of paths comes by path: no later entry has a path that
/// comes before that of an earlier one.
pub proof fn sorted_entries_come_by_path(
    entries: Seq<ScanEntryView>,
    sorted: Seq<ScanEntryView>,
    i: int,
    j: int,
)
    requires
        is_sorted_by_path(entries, sorted),
        0 <= i < j < sorted.len(),
    ensures
        !parts_before(sorted[j].path.parts, sorted[i].path.parts),
        sorted.len() == entries.len(),
{
    let order = choose|order: Seq<int>| #[trigger]
        is_path_order(entries, order) && sorted =~= order.map_values(
            |i: int| entries[i],
        );
    assert(comes_first(entries, order[i], order[j]));
    crate::path::parts_before_asymmetric(sorted[i].path.parts, sorted[j].path.parts);
    crate::path::parts_before_irreflexive(sorted[i].path.parts);
}

// ---- Scanning ----

proof fn found_files_are_bounded(rule: RuleView, files: Seq<FileInfoView>, now: i128)
    ensures
        total(files.filter_map(file_entry(rule, now)), entry_size()) <= total(files, file_size()),
    decreases files.len(),
{
    let f = file_entry(rule, now);
    if files.len() > 0 {
        let front = files.drop_last();
        found_files_are_bounded(rule, front, now);
        match f(files.last()) {
            Some(e) => {
                assert(files.filter_map(f) =~= front.filter_map(f).push(e));
                crate::seqs::total_push(front.filter_map(f), e, entry_size());
            },
            None => {},
        }
    }
}

proof fn found_is_bounded(rule: RuleView, items: Seq<DirItem>, now: i128)
    requires
        is_listing_countable(rule, items),
    ensures
        total(found(rule, items, now), entry_size()) <= u64::MAX,
{
    match rule.match_kind {
        MatchKindView::All => {
            found_children_are_bounded(rule.id, items, now, items.len() as int);
            assert(items.take(items.len() as int) =~= items);
        },
        _ => {
            found_files_are_bounded(rule, visited(items, 0), now);
        },
    }
}

/// Whether the sizes of what is listed can be counted.
pub fn listing_is_countable(rule: &Rule, items: &Vec<DirItem>) -> (r: bool)
    ensures
        r == is_listing_countable(rule@, items@),
{
    match rule.match_kind {
        MatchKind::All => {
            let mut sum: u64 = 0;
            let mut i: usize = 0;
            while i < items.len()
                invariant
                    i <= items@.len(),
                    rule@.match_kind is All,
                    sum == total(items@.take(i as int), item_bytes()),
                decreases items@.len() - i,
            {
                proof {
                    total_take(items@, i as int, item_bytes());
                }
                let bytes: Option<u64> = match &items[i] {
                    DirItem::Symlink { size, .. } => Some(*size),
                    DirItem::Dir { items: inner, .. } => {
                        let files = walk_files(inner);
                        files_total(&files)
                    },
                    DirItem::File(file) => Some(file.size),
                };
                match bytes {
                    Some(n) => match sum.checked_add(n) {
                        Some(next) => {
                            sum = next;
                        },
                        None => {
                            return false;
                        },
                    },
                    None => {
                        return false;
                    },
                }
                i = i + 1;
            }
            assert(items@.take(i as int) =~= items@);
            true
        },
        _ => {
            let files = walk_files(items);
            files_total(&files).is_some()
        },
    }
}

/// The size of the files, where it can be counted.
fn files_total(files: &Vec<FileInfo>) -> (r: Option<u64>)
    ensures
        r is Some <==> total(file_views(files@), file_size()) <= u64::MAX,
        r is Some ==> r->0 == total(file_views(files@), file_size()),
{
    let ghost all = file_views(files@);
    let mut sum: u64 = 0;
    let mut i: usize = 0;
    while i < files.len()
        invariant
            i <= files@.len(),
            all == file_views(files@),
            sum == total(all.take(i as int), file_size()),
        decreases files@.len() - i,
    {
        proof {
            total_take(all, i as int, file_size());
            assert(all[i as int] == files@[i as int]@);
        }
        match sum.checked_add(files[i].size) {
            Some(next) => {
                sum = next;
            },
            None => {
                return None;
            },
        }
        i = i + 1;
    }
    assert(all.take(i as int) =~= all);
    Some(sum)
}

/// Whether the size of the entries can be counted.
pub fn entries_are_countable(entries: &Vec<ScanEntry>) -> (r: bool)
    ensures
        r == (total(entry_views(entries@), entry_size()) <= u64::MAX),
{
    let ghost all = entry_views(entries@);
    let mut sum: u64 = 0;
    let mut i: usize = 0;
    while i < entries.len()
        invariant
            i <= entries@.len(),
            all == entry_views(entries@),
            sum == total(all.take(i as int), entry_size()),
        decreases entries@.len() - i,
    {
        proof {
            total_take(all, i as int, entry_size());
            assert(all[i as int] == entries@[i as int]@);
        }
        match sum.checked_add(entries[i].size) {
            Some(next) => {
                sum = next;
            },
            None => {
                return false;
            },
        }
        i = i + 1;
    }
    assert(all.take(i as int) =~= all);
    true
}

/// The size of the entries.
pub fn entries_total(entries: &Vec<ScanEntry>) -> (r: u64)
    requires
        total(entry_views(entries@), entry_size()) <= u64::MAX,
    ensures
        r == total(entry_views(entries@), entry_size()),
{
    let ghost all = entry_views(entries@);
    let mut sum: u64 = 0;
    let mut i: usize = 0;
    while i < entries.len()
        invariant
            i <= entries@.len(),
            all == entry_views(entries@),
            total(all, entry_size()) <= u64::MAX,
            sum == total(all.take(i as int), entry_size()),
        decreases entries@.len() - i,
    {
        proof {
            total_take(all, i as int, entry_size());
            assert(all[i as int] == entries@[i as int]@);
        }
        sum = sum + entries[i].size;
        i = i + 1;
    }
    assert(all.take(i as int) =~= all);
    sum
}

/// No duplicates have been looked for yet.
pub open spec fn are_new(entries: Seq<ScanEntryView>) -> bool {
    forall|i: int| 0 <= i < entries.len() ==> (#[trigger] entries[i]).duplicate is None
}

proof fn found_entries_are_new(rule: RuleView, items: Seq<DirItem>, now: i128)
    ensures
        are_new(found(rule, items, now)),
{
    let new = found(rule, items, now);
    assert forall|i: int| 0 <= i < new.len() implies (#[trigger] new[i]).duplicate is None by {
        match rule.match_kind {
            MatchKindView::All => {
                let x = crate::seqs::filter_map_source(items, child_entry(rule.id, now), i);
            },
            _ => {
                let x = crate::seqs::filter_map_source(
                    visited(items, 0),
                    file_entry(rule, now),
                    i,
                );
            },
        }
    }
}

proof fn found_entries_are_listed(
    target: ScanTargetView,
    items: Seq<DirItem>,
    now: i128,
    m: int,
)
    requires
        0 <= m < found(target.rule, items, now).len(),
    ensures
        is_found_in(found(target.rule, items, now)[m], target, items, now),
{
    match target.rule.match_kind {
        MatchKindView::All => {
            let i = crate::seqs::filter_map_source(items, child_entry(target.rule.id, now), m);
            assert(found(target.rule, items, now)[m].path == item_path(items[i]));
        },
        _ => {
            let files = visited(items, 0);
            let i = crate::seqs::filter_map_source(files, file_entry(target.rule, now), m);
            assert(found(target.rule, items, now)[m].path == files[i].path);
        },
    }
}

proof fn sorted_entries_are_listed(
    target: ScanTargetView,
    items: Seq<DirItem>,
    now: i128,
    sorted: Seq<ScanEntryView>,
)
    requires
        is_sorted_by_path(found(target.rule, items, now), sorted),
    ensures
        forall|i: int|
            0 <= i < sorted.len() ==> is_found_in(#[trigger] sorted[i], target, items, now),
{
    let entries = found(target.rule, items, now);
    let order = choose|order: Seq<int>| #[trigger]
        is_path_order(entries, order) && sorted =~= order.map_values(
            |i: int| entries[i],
        );
    assert forall|i: int| 0 <= i < sorted.len() implies is_found_in(
        #[trigger] sorted[i],
        target,
        items,
        now,
    ) by {
        assert(sorted[i] == entries[order[i]]);
        found_entries_are_listed(target, items, now, order[i]);
    }
}

proof fn sorted_entries_stay_new(entries: Seq<ScanEntryView>, sorted: Seq<ScanEntryView>)
    requires
        are_new(entries),
        is_sorted_by_path(entries, sorted),
    ensures
        are_new(sorted),
{
    let order = choose|order: Seq<int>| #[trigger]
        is_path_order(entries, order) && sorted =~= order.map_values(
            |i: int| entries[i],
        );
    assert forall|i: int| 0 <= i < sorted.len() implies (
    #[trigger] sorted[i]).duplicate is None by {
        assert(sorted[i] == entries[order[i]]);
    }
}

/// What is reported while the rule of a target is scanned.
pub open spec fn target_reports(
    target: ScanTargetView,
    items: Seq<DirItem>,
    now: i128,
) -> Seq<ScanProgressView> {
    let entries = found(target.rule, items, now);
    seq![ScanProgressView::RuleStarted { rule_id: target.rule.id, base: target.base }]
        + walking_reports(target.rule, items, now) + seq![
        ScanProgressView::RuleFinished {
            rule_id: target.rule.id,
            entries: entries.len(),
            total_size: total(entries, entry_size()),
        },
    ]
}

/// Scans the rule of a target, whose base has the listing `items`: its entries
/// in the order of their paths, and the reports on the way.
pub fn walk_target(target: &ScanTarget, items: &Vec<DirItem>, now: i128) -> (r: (
    Vec<ScanEntry>,
    Vec<ScanProgress>,
))
    requires
        is_listing_countable(target@.rule, items@),
    ensures
        entry_views(r.0@) == by_path(found(target@.rule, items@, now)),
        are_new(entry_views(r.0@)),
        forall|i: int|
            0 <= i < r.0@.len() ==> is_found_in(
                #[trigger] entry_views(r.0@)[i],
                target@,
                items@,
                now,
            ),
        r.0@.len() == found(target@.rule, items@, now).len(),
        progress_views(r.1@) == target_reports(target@, items@, now),
{
    let rule = &target.rule;
    let mut events: Vec<ScanProgress> = Vec::new();
    events.push(
        ScanProgress::RuleStarted { rule_id: rule.id.clone(), base: target.base.clone() },
    );
    let ghost first = events@;
    let (entries, mut reports) = match rule.match_kind {
        MatchKind::All => walk_all(items, rule.id.as_str(), now),
        _ => walk_matched_files(items, rule, now),
    };
    let ghost between = reports@;
    proof {
        found_is_bounded(target@.rule, items@, now);
    }
    let total_size: u64 = entries_total(&entries);
    let sorted = sort_by_path(&entries);
    proof {
        found_entries_are_new(target@.rule, items@, now);
        sorted_entries_stay_new(entry_views(entries@), entry_views(sorted@));
        sorted_entries_are_listed(target@, items@, now, entry_views(sorted@));
        sorting_is_unique(
            entry_views(entries@),
            entry_views(sorted@),
            by_path(entry_views(entries@)),
        );
    }
    events.append(&mut reports);
    let last = ScanProgress::RuleFinished {
        rule_id: rule.id.clone(),
        entries: sorted.len(),
        total_size,
    };
    events.push(last);
    assert(events@ =~= first + between + seq![last]);
    assert(progress_views(events@) =~= progress_views(first) + progress_views(between) + seq![
        last@,
    ]);
    assert(progress_views(first) =~= seq![
        ScanProgressView::RuleStarted { rule_id: target@.rule.id, base: target@.base },
    ]);
    (sorted, events)
}

/// The listing of the base of the target `k`; empty where it could not be read.
pub open spec fn listing_at(listings: Seq<Vec<DirItem>>, k: int) -> Seq<DirItem> {
    if 0 <= k < listings.len() {
        listings[k]@
    } else {
        Seq::empty()
    }
}

/// The entries of all targets, in the order of the targets.
pub open spec fn walked(
    targets: Seq<ScanTargetView>,
    listings: Seq<Vec<DirItem>>,
    now: i128,
) -> Seq<ScanEntryView>
    decreases targets.len(),
{
    if targets.len() == 0 {
        Seq::empty()
    } else {
        walked(targets.drop_last(), listings, now) + by_path(
            found(targets.last().rule, listing_at(listings, targets.len() - 1), now),
        )
    }
}

/// What is reported while all targets are scanned, one after the other.
pub open spec fn walked_reports(
    targets: Seq<ScanTargetView>,
    listings: Seq<Vec<DirItem>>,
    now: i128,
) -> Seq<ScanProgressView>
    decreases targets.len(),
{
    if targets.len() == 0 {
        Seq::empty()
    } else {
        walked_reports(targets.drop_last(), listings, now) + target_reports(
            targets.last(),
            listing_at(listings, targets.len() - 1),
            now,
        )
    }
}

/// The sizes of what is listed can be counted, for each target.
pub open spec fn are_listings_countable(
    targets: Seq<ScanTargetView>,
    listings: Seq<Vec<DirItem>>,
) -> bool {
    forall|k: int|
        0 <= k < targets.len() ==> is_listing_countable(
            (#[trigger] targets[k]).rule,
            listing_at(listings, k),
        )
}

/// The sizes of what is listed can be counted, for each target, and those of
/// what is found together.
pub open spec fn is_scan_countable(
    targets: Seq<ScanTargetView>,
    listings: Seq<Vec<DirItem>>,
    now: i128,
) -> bool {
    are_listings_countable(targets, listings) && total(
        walked(targets, listings, now),
        entry_size(),
    ) <= u64::MAX
}

/// Whether the sizes of what is listed can be counted, for each target.
pub fn listings_are_countable(targets: &Vec<ScanTarget>, listings: &Vec<Vec<DirItem>>) -> (r: bool)
    ensures
        r == are_listings_countable(target_views(targets@), listings@),
{
    let ghost all = target_views(targets@);
    let nothing: Vec<DirItem> = Vec::new();
    let mut k: usize = 0;
    while k < targets.len()
        invariant
            k <= targets@.len(),
            all == target_views(targets@),
            nothing@ == Seq::<DirItem>::empty(),
            forall|j: int|
                0 <= j < k ==> is_listing_countable(
                    (#[trigger] all[j]).rule,
                    listing_at(listings@, j),
                ),
        decreases targets@.len() - k,
    {
        let items = if k < listings.len() {
            &listings[k]
        } else {
            &nothing
        };
        assert(items@ == listing_at(listings@, k as int));
        assert(all[k as int] == targets@[k as int]@);
        if !listing_is_countable(&targets[k].rule, items) {
            return false;
        }
        k = k + 1;
    }
    true
}

/// Scans all targets, one after the other.
pub fn walk_targets(targets: &Vec<ScanTarget>, listings: &Vec<Vec<DirItem>>, now: i128) -> (r: (
    Vec<ScanEntry>,
    Vec<ScanProgress>,
))
    requires
        are_listings_countable(target_views(targets@), listings@),
    ensures
        entry_views(r.0@) == walked(target_views(targets@), listings@, now),
        are_new(entry_views(r.0@)),
        are_found_in(entry_views(r.0@), target_views(targets@), listings@, now),
        progress_views(r.1@) == walked_reports(target_views(targets@), listings@, now),
{
    let ghost all = target_views(targets@);
    let mut entries: Vec<ScanEntry> = Vec::new();
    let mut events: Vec<ScanProgress> = Vec::new();
    let nothing: Vec<DirItem> = Vec::new();
    let mut k: usize = 0;
    assert(entry_views(entries@) =~= walked(all.take(0), listings@, now));
    assert(progress_views(events@) =~= walked_reports(all.take(0), listings@, now));
    while k < targets.len()
        invariant
            k <= targets@.len(),
            all == target_views(targets@),
            are_listings_countable(all, listings@),
            nothing@ == Seq::<DirItem>::empty(),
            entry_views(entries@) == walked(all.take(k as int), listings@, now),
            are_new(entry_views(entries@)),
            are_found_in(entry_views(entries@), all, listings@, now),
            progress_views(events@) == walked_reports(all.take(k as int), listings@, now),
        decreases targets@.len() - k,
    {
        let items = if k < listings.len() {
            &listings[k]
        } else {
            &nothing
        };
        assert(items@ == listing_at(listings@, k as int));
        assert(all[k as int] == targets@[k as int]@);
        let (mut more, mut reports) = walk_target(&targets[k], items, now);
        let ghost old_entries = entries@;
        let ghost old_events = events@;
        let ghost more_entries = more@;
        let ghost more_events = reports@;
        entries.append(&mut more);
        events.append(&mut reports);
        proof {
            assert(entries@ =~= old_entries + more_entries);
            assert(events@ =~= old_events + more_events);
            assert(entry_views(entries@) =~= entry_views(old_entries) + entry_views(more_entries));
            assert(progress_views(events@) =~= progress_views(old_events) + progress_views(
                more_events,
            ));
            let now_targets = all.take(k + 1);
            assert(now_targets.drop_last() =~= all.take(k as int));
            assert(now_targets.last() == all[k as int]);
            let together = entry_views(entries@);
            assert forall|i: int| 0 <= i < together.len() implies exists|m: int|
                0 <= m < all.len() && is_found_in(
                    #[trigger] together[i],
                    #[trigger] all[m],
                    listing_at(listings@, m),
                    now,
                ) by {
                if i < old_entries.len() {
                    assert(together[i] == entry_views(old_entries)[i]);
                } else {
                    assert(together[i] == entry_views(more_entries)[i - old_entries.len()]);
                    assert(is_found_in(together[i], all[k as int], items@, now));
                }
            }
        }
        k = k + 1;
    }
    assert(all.take(k as int) =~= all);
    (entries, events)
}

/// The targets of the rules that are scanned.
pub open spec fn targets_of<P: Platform + ?Sized>(
    platform: &P,
    rules: Seq<RuleView>,
) -> Seq<ScanTargetView> {
    rules.filter_map(target_of(platform))
}

/// The entries with the answers to whether they are in use.
pub open spec fn with_answers(
    entries: Seq<ScanEntryView>,
    answers: Seq<Option<bool>>,
) -> Seq<ScanEntryView> {
    Seq::new(
        entries.len(),
        |i: int| crate::inspect::with_in_use(entries[i], answers[i]),
    )
}

/// What a scan comes to when the platform gives `answers` on what is in use.
pub open spec fn scanned<P: Platform + ?Sized>(
    platform: &P,
    rules: Seq<RuleView>,
    lang: Lang,
    listings: Seq<Vec<DirItem>>,
    now: i128,
    answers: Seq<Option<bool>>,
) -> Seq<ScanEntryView> {
    with_recommendations(
        with_answers(walked(targets_of(platform, rules), listings, now), answers),
        rules,
        lang,
    )
}

/// What is reported during a scan.
pub open spec fn scan_reports<P: Platform + ?Sized>(
    platform: &P,
    rules: Seq<RuleView>,
    listings: Seq<Vec<DirItem>>,
    now: i128,
) -> Seq<ScanProgressView> {
    let targets = targets_of(platform, rules);
    let entries = walked(targets, listings, now);
    seq![ScanProgressView::Started { total_rules: targets.len() }] + rules.filter_map(
        skip_of(platform),
    ) + walked_reports(targets, listings, now) + seq![
        ScanProgressView::Finished {
            entries: entries.len(),
            total_size: total(entries, entry_size()),
        },
    ]
}

/// Scans the rules, where `listings` holds what was found below the base of
/// each rule that is scanned, in the order of the rules.
pub fn scan<P: Platform + ?Sized>(
    platform: &P,
    rules: &[Rule],
    lang: Lang,
    listings: &Vec<Vec<DirItem>>,
    now: i128,
) -> (r: Vec<ScanEntry>)
    requires
        is_scan_countable(targets_of(platform, rule_views(rules@)), listings@, now),
    ensures
        exists|answers: Seq<Option<bool>>|
            entry_views(r@) == #[trigger] scanned(
                platform,
                rule_views(rules@),
                lang,
                listings@,
                now,
                answers,
            ) && are_answers_of(
                platform,
                walked(targets_of(platform, rule_views(rules@)), listings@, now),
                answers,
            ),
        are_found_in(
            entry_views(r@),
            targets_of(platform, rule_views(rules@)),
            listings@,
            now,
        ),
        are_new(entry_views(r@)),
{
    let (entries, _) = scan_with_progress(platform, rules, lang, listings, now);
    entries
}

/// Scans the rules, and reports on the way.
pub fn scan_with_progress<P: Platform + ?Sized>(
    platform: &P,
    rules: &[Rule],
    lang: Lang,
    listings: &Vec<Vec<DirItem>>,
    now: i128,
) -> (r: (Vec<ScanEntry>, Vec<ScanProgress>))
    requires
        is_scan_countable(targets_of(platform, rule_views(rules@)), listings@, now),
    ensures
        exists|answers: Seq<Option<bool>>|
            entry_views(r.0@) == #[trigger] scanned(
                platform,
                rule_views(rules@),
                lang,
                listings@,
                now,
                answers,
            ) && are_answers_of(
                platform,
                walked(targets_of(platform, rule_views(rules@)), listings@, now),
                answers,
            ),
        are_found_in(
            entry_views(r.0@),
            targets_of(platform, rule_views(rules@)),
            listings@,
            now,
        ),
        are_new(entry_views(r.0@)),
        progress_views(r.1@) == scan_reports(platform, rule_views(rules@), listings@, now),
{
    match scan_if_countable(platform, rules, lang, listings, now) {
        Some(found) => found,
        None => (Vec::new(), Vec::new()),
    }
}

/// Scans the rules, and reports on the way, where the sizes can be counted.
pub fn scan_if_countable<P: Platform + ?Sized>(
    platform: &P,
    rules: &[Rule],
    lang: Lang,
    listings: &Vec<Vec<DirItem>>,
    now: i128,
) -> (r: Option<(Vec<ScanEntry>, Vec<ScanProgress>)>)
    ensures
        r is Some == is_scan_countable(targets_of(platform, rule_views(rules@)), listings@, now),
        match r {
            Some((entries, events)) => {
                &&& exists|answers: Seq<Option<bool>>|
                    entry_views(entries@) == #[trigger] scanned(
                        platform,
                        rule_views(rules@),
                        lang,
                        listings@,
                        now,
                        answers,
                    ) && are_answers_of(
                        platform,
                        walked(targets_of(platform, rule_views(rules@)), listings@, now),
                        answers,
                    )
                &&& are_found_in(
                    entry_views(entries@),
                    targets_of(platform, rule_views(rules@)),
                    listings@,
                    now,
                )
                &&& are_new(entry_views(entries@))
                &&& progress_views(events@) == scan_reports(
                    platform,
                    rule_views(rules@),
                    listings@,
                    now,
                )
            },
            None => true,
        },
{
    let (targets, mut events) = resolve_targets(platform, rules);
    let ghost opening = progress_views(events@);
    let ghost first = events@;
    if !listings_are_countable(&targets, listings) {
        return None;
    }
    let (mut entries, mut reports) = walk_targets(&targets, listings, now);
    if !entries_are_countable(&entries) {
        return None;
    }
    let ghost between = reports@;
    let total_size: u64 = entries_total(&entries);
    let ghost plain = entry_views(entries@);
    annotate_in_use(platform, &mut entries);
    let ghost answers = choose|answers: Seq<Option<bool>>| #[trigger]
        are_answers_of(platform, plain, answers) && answers_recorded(
            plain,
            answers,
            entry_views(entries@),
        );
    assert(entry_views(entries@) =~= with_answers(plain, answers));
    assert(have_counted_duplicates(entry_views(entries@)));
    apply_recommendations(&mut entries, rules, lang);
    assert(entry_views(entries@) == scanned(
        platform,
        rule_views(rules@),
        lang,
        listings@,
        now,
        answers,
    ));
    proof {
        let done = entry_views(entries@);
        let all = targets_of(platform, rule_views(rules@));
        assert forall|i: int| 0 <= i < done.len() implies exists|k: int|
            0 <= k < all.len() && is_found_in(
                #[trigger] done[i],
                #[trigger] all[k],
                listing_at(listings@, k),
                now,
            ) by {
            assert(done[i].path == plain[i].path && done[i].rule_id == plain[i].rule_id);
            let k = choose|k: int|
                0 <= k < all.len() && is_found_in(
                    plain[i],
                    #[trigger] all[k],
                    listing_at(listings@, k),
                    now,
                );
            assert(is_found_in(done[i], all[k], listing_at(listings@, k), now));
        }
    }
    let last = ScanProgress::Finished { entries: entries.len(), total_size };
    events.append(&mut reports);
    events.push(last);
    assert(events@ =~= first + between + seq![last]);
    assert(progress_views(events@) =~= opening + progress_views(between) + seq![last@]);
    assert(entries@.len() == entry_views(entries@).len());
    assert(progress_views(events@) =~= scan_reports(
        platform,
        rule_views(rules@),
        listings@,
        now,
    ));
    Some((entries, events))
}

/// Where the entries of the target `k` start among those of all targets.
pub open spec fn start_of(
    targets: Seq<ScanTargetView>,
    listings: Seq<Vec<DirItem>>,
    now: i128,
    k: int,
) -> nat {
    walked(targets.take(k), listings, now).len()
}

proof fn entries_of_target(
    targets: Seq<ScanTargetView>,
    listings: Seq<Vec<DirItem>>,
    now: i128,
    k: int,
    i: int,
)
    requires
        0 <= k < targets.len(),
        0 <= i < by_path(found(targets[k].rule, listing_at(listings, k), now)).len(),
    ensures
        start_of(targets, listings, now, k) + i < walked(targets, listings, now).len(),
        walked(targets, listings, now)[start_of(targets, listings, now, k) + i] == by_path(
            found(targets[k].rule, listing_at(listings, k), now),
        )[i],
    decreases targets.len(),
{
    let front = targets.drop_last();
    if k == targets.len() - 1 {
        assert(targets.take(k) =~= front);
    } else {
        entries_of_target(front, listings, now, k, i);
        assert(front.take(k) =~= targets.take(k));
    }
}

/// The entries of a scan come target by target, and those of one target by path.
pub proof fn scanned_entries_come_by_path<P: Platform + ?Sized>(
    platform: &P,
    rules: Seq<RuleView>,
    lang: Lang,
    listings: Seq<Vec<DirItem>>,
    now: i128,
    answers: Seq<Option<bool>>,
    k: int,
    i: int,
    j: int,
)
    requires
        0 <= k < targets_of(platform, rules).len(),
        0 <= i < j < found(
            targets_of(platform, rules)[k].rule,
            listing_at(listings, k),
            now,
        ).len(),
    ensures
        ({
            let entries = scanned(platform, rules, lang, listings, now, answers);
            let start = start_of(targets_of(platform, rules), listings, now, k) as int;
            &&& start + j < entries.len()
            &&& !parts_before(
                entries[start + j].path.parts,
                entries[start + i].path.parts,
            )
        }),
{
    let targets = targets_of(platform, rules);
    let own = found(targets[k].rule, listing_at(listings, k), now);
    by_path_is_sorted(own);
    sorted_entries_come_by_path(own, by_path(own), i, j);
    entries_of_target(targets, listings, now, k, i);
    entries_of_target(targets, listings, now, k, j);
}

/// `path` lies below `base`, and is not `base` itself.
pub open spec fn is_below(path: FilePathView, base: FilePathView) -> bool {
    path.starts_with(base) && path.parts != base.parts
}

/// All that is listed lies below `base`.
pub open spec fn is_listed_below(items: Seq<DirItem>, base: FilePathView) -> bool {
    &&& forall|i: int| 0 <= i < items.len() ==> is_below(item_path(#[trigger] items[i]), base)
    &&& forall|i: int|
        0 <= i < visited(items, 0).len() ==> is_below(
            (#[trigger] visited(items, 0)[i]).path,
            base,
        )
}

/// A scan never reaches beyond the bases of its rules: where each listing lies
/// below the base that it was made for, each entry lies below the base of its
/// rule, and none is the base itself.
pub proof fn entries_lie_below_their_base(
    entries: Seq<ScanEntryView>,
    targets: Seq<ScanTargetView>,
    listings: Seq<Vec<DirItem>>,
    now: i128,
    i: int,
)
    requires
        are_found_in(entries, targets, listings, now),
        forall|k: int|
            0 <= k < targets.len() ==> is_listed_below(
                listing_at(listings, k),
                (#[trigger] targets[k]).base,
            ),
        0 <= i < entries.len(),
    ensures
        exists|k: int|
            0 <= k < targets.len() && entries[i].rule_id == (#[trigger] targets[k]).rule.id
                && is_below(entries[i].path, targets[k].base),
{
    let k = choose|k: int|
        0 <= k < targets.len() && is_found_in(
            entries[i],
            #[trigger] targets[k],
            listing_at(listings, k),
            now,
        );
    assert(is_listed_below(listing_at(listings, k), targets[k].base));
}

// ---- After the scan ----

/// `after` are the entries with their duplicates marked.
pub open spec fn are_marked(
    before: Seq<ScanEntryView>,
    hashes: Seq<Option<u64>>,
    after: Seq<ScanEntryView>,
) -> bool {
    &&& after.len() == before.len()
    &&& forall|i: int|
        0 <= i < after.len() ==> crate::inspect::is_annotated(
            before,
            crate::inspect::content_keys(before, hashes),
            i,
            #[trigger] after[i],
        )
}

/// `after` is what becomes of scanned entries: where duplicates are looked for,
/// they are marked and the recommendations given anew; then the user's wishes
/// apply.
pub open spec fn is_piped(
    before: Seq<ScanEntryView>,
    rules: Seq<RuleView>,
    config: Config,
    hashes: Seq<Option<u64>>,
    after: Seq<ScanEntryView>,
) -> bool {
    if config.detect_duplicates {
        exists|marked: Seq<ScanEntryView>| #[trigger]
            are_marked(before, hashes, marked) && after == with_prefs(
                with_recommendations(marked, rules, config.lang),
                config,
            )
    } else {
        after == with_prefs(before, config)
    }
}

proof fn marking_is_unique(
    before: Seq<ScanEntryView>,
    hashes: Seq<Option<u64>>,
    a: Seq<ScanEntryView>,
    b: Seq<ScanEntryView>,
)
    requires
        are_marked(before, hashes, a),
        are_marked(before, hashes, b),
    ensures
        a == b,
{
    let keys = crate::inspect::content_keys(before, hashes);
    assert forall|i: int| 0 <= i < a.len() implies #[trigger] a[i] == b[i] by {
        assert(crate::inspect::is_annotated(before, keys, i, a[i]));
        assert(crate::inspect::is_annotated(before, keys, i, b[i]));
        if crate::inspect::has_duplicate(keys, i) {
            let x = choose|first: int| #[trigger]
                crate::inspect::is_duplicate_info(a[i].duplicate->0, before, keys, i, first);
            let y = choose|first: int| #[trigger]
                crate::inspect::is_duplicate_info(b[i].duplicate->0, before, keys, i, first);
            assert(keys[x] == keys[y]);
        }
    }
    assert(a =~= b);
}

/// What becomes of scanned entries is fixed by them, the rules, the settings and
/// the hashes. So both ways through the pipeline, with reports and without,
/// come to the same.
pub proof fn piping_is_unique(
    before: Seq<ScanEntryView>,
    rules: Seq<RuleView>,
    config: Config,
    hashes: Seq<Option<u64>>,
    a: Seq<ScanEntryView>,
    b: Seq<ScanEntryView>,
)
    requires
        is_piped(before, rules, config, hashes, a),
        is_piped(before, rules, config, hashes, b),
    ensures
        a == b,
{
    if config.detect_duplicates {
        let x = choose|marked: Seq<ScanEntryView>| #[trigger]
            are_marked(before, hashes, marked) && a == with_prefs(
                with_recommendations(marked, rules, config.lang),
                config,
            );
        let y = choose|marked: Seq<ScanEntryView>| #[trigger]
            are_marked(before, hashes, marked) && b == with_prefs(
                with_recommendations(marked, rules, config.lang),
                config,
            );
        marking_is_unique(before, hashes, x, y);
    }
}

/// What becomes of scanned entries, where `hashes` holds the hash of each entry
/// that was read.
pub fn scan_pipeline(
    entries: &mut Vec<ScanEntry>,
    rules: &[Rule],
    config: &Config,
    hashes: &Vec<Option<u64>>,
)
    requires
        have_counted_duplicates(entry_views(old(entries)@)),
        config.detect_duplicates ==> hashes@.len() == old(entries)@.len(),
    ensures
        is_piped(
            entry_views(old(entries)@),
            rule_views(rules@),
            *config,
            hashes@,
            entry_views(final(entries)@),
        ),
{
    let mut events: Vec<ScanProgress> = Vec::new();
    scan_pipeline_with_progress(entries, &mut events, rules, config, hashes);
}

/// What is reported on the closer look at `n` entries: nothing, where
/// duplicates are not looked for.
pub open spec fn inspecting_reports(config: Config, n: nat) -> Seq<ScanProgressView> {
    if config.detect_duplicates {
        seq![
            ScanProgressView::Inspecting { done: 0, total: n },
            ScanProgressView::Inspecting { done: n, total: n },
        ]
    } else {
        Seq::empty()
    }
}

/// What becomes of scanned entries. The reports on the way are added to
/// `events`, which holds those of the scan.
pub fn scan_pipeline_with_progress(
    entries: &mut Vec<ScanEntry>,
    events: &mut Vec<ScanProgress>,
    rules: &[Rule],
    config: &Config,
    hashes: &Vec<Option<u64>>,
)
    requires
        have_counted_duplicates(entry_views(old(entries)@)),
        config.detect_duplicates ==> hashes@.len() == old(entries)@.len(),
    ensures
        is_piped(
            entry_views(old(entries)@),
            rule_views(rules@),
            *config,
            hashes@,
            entry_views(final(entries)@),
        ),
        progress_views(final(events)@) == progress_views(old(events)@) + inspecting_reports(
            *config,
            old(entries)@.len(),
        ),
{
    let ghost before = entry_views(entries@);
    let ghost reported = progress_views(events@);
    if config.detect_duplicates {
        let n: usize = entries.len();
        events.push(ScanProgress::Inspecting { done: 0, total: n });
        annotate_duplicates(entries, hashes);
        let ghost marked = entry_views(entries@);
        proof {
            assert forall|i: int| 0 <= i < marked.len() implies crate::inspect::is_annotated(
                before,
                crate::inspect::content_keys(before, hashes@),
                i,
                #[trigger] marked[i],
            ) && has_counted_duplicates(marked[i]) by {
                assert(marked[i] == entries@[i]@);
                assert(has_counted_duplicates(before[i]));
            }
            assert(are_marked(before, hashes@, marked));
        }
        apply_recommendations(entries, rules, config.lang);
        events.push(ScanProgress::Inspecting { done: n, total: n });
    }
    assert(progress_views(events@) =~= reported + inspecting_reports(*config, before.len()));
    apply_rule_prefs(entries, config);
}

proof fn walking_only_walks<A>(
    rule_id: Seq<char>,
    looked_at: Seq<A>,
    bytes: spec_fn(A) -> nat,
)
    ensures
        forall|i: int|
            0 <= i < walking(rule_id, looked_at, bytes).len() ==> (#[trigger] walking(
                rule_id,
                looked_at,
                bytes,
            )[i]) is Walking,
    decreases looked_at.len(),
{
    if looked_at.len() > 0 {
        walking_only_walks(rule_id, looked_at.drop_last(), bytes);
    }
}

proof fn walks_do_not_inspect(
    targets: Seq<ScanTargetView>,
    listings: Seq<Vec<DirItem>>,
    now: i128,
)
    ensures
        forall|i: int|
            0 <= i < walked_reports(targets, listings, now).len() ==> !((
            #[trigger] walked_reports(targets, listings, now)[i]) is Inspecting) && !(
            walked_reports(targets, listings, now)[i] is Finished),
    decreases targets.len(),
{
    if targets.len() > 0 {
        let rule = targets.last().rule;
        let items = listing_at(listings, targets.len() - 1);
        walks_do_not_inspect(targets.drop_last(), listings, now);
        walking_only_walks(rule.id, found(rule, items, now), entry_size());
        walking_only_walks(rule.id, visited(items, 0), taken_bytes(rule, now));
    }
}

/// The reports of a scan end with `Finished`, which comes once. The closer look
/// follows, and nothing before it is a report on it: there are two such reports
/// where duplicates are looked for, and none where they are not.
pub proof fn the_closer_look_comes_last<P: Platform + ?Sized>(
    platform: &P,
    rules: Seq<RuleView>,
    listings: Seq<Vec<DirItem>>,
    now: i128,
    config: Config,
    i: int,
)
    requires
        0 <= i < scan_reports(platform, rules, listings, now).len(),
    ensures
        ({
            let entries = walked(targets_of(platform, rules), listings, now);
            let scan = scan_reports(platform, rules, listings, now);
            let all = scan + inspecting_reports(config, entries.len());
            &&& !(scan[i] is Inspecting)
            &&& scan[i] is Finished <==> i == scan.len() - 1
            &&& scan.last() is Finished
            &&& scan.last()->Finished_entries == entries.len()
            &&& all.len() == scan.len() + (if config.detect_duplicates {
                2nat
            } else {
                0nat
            })
        }),
{
    let targets = targets_of(platform, rules);
    let skips = rules.filter_map(skip_of(platform));
    walks_do_not_inspect(targets, listings, now);
    assert forall|k: int| 0 <= k < skips.len() implies (#[trigger] skips[k]) is RuleSkipped by {
        let x = crate::seqs::filter_map_source(rules, skip_of(platform), k);
    }
}

// ---- What a walk reaches ----

/// What the files that lie `d` directories below a listing weigh by `g`
/// together.
pub open spec fn weight_at(items: Seq<DirItem>, g: spec_fn(FileInfoView) -> nat, d: nat) -> nat
    decreases d, items.len(),
{
    if items.len() == 0 {
        0
    } else {
        weight_at(items.drop_last(), g, d) + match items.last() {
            DirItem::File(f) => if d == 0 {
                g(f@)
            } else {
                0
            },
            DirItem::Dir { items: inner, .. } => if d == 0 {
                0
            } else {
                weight_at(inner@, g, (d - 1) as nat)
            },
            DirItem::Symlink { .. } => 0,
        }
    }
}

/// What the files that lie at most `n` directories below a listing weigh by `g`
/// together.
pub open spec fn weight_within(items: Seq<DirItem>, g: spec_fn(FileInfoView) -> nat, n: nat) -> nat
    decreases n,
{
    if n == 0 {
        weight_at(items, g, 0)
    } else {
        weight_within(items, g, (n - 1) as nat) + weight_at(items, g, n)
    }
}

proof fn weight_of_last(items: Seq<DirItem>, g: spec_fn(FileInfoView) -> nat, n: nat)
    requires
        items.len() > 0,
    ensures
        weight_within(items, g, n) == weight_within(items.drop_last(), g, n) + match items.last() {
            DirItem::File(f) => g(f@),
            DirItem::Dir { items: inner, .. } => if n == 0 {
                0
            } else {
                weight_within(inner@, g, (n - 1) as nat)
            },
            DirItem::Symlink { .. } => 0,
        },
    decreases n,
{
    if n > 0 {
        weight_of_last(items, g, (n - 1) as nat);
    }
}

proof fn weight_of_nothing(items: Seq<DirItem>, g: spec_fn(FileInfoView) -> nat, n: nat)
    requires
        items.len() == 0,
    ensures
        weight_within(items, g, n) == 0,
    decreases n,
{
    if n > 0 {
        weight_of_nothing(items, g, (n - 1) as nat);
    }
}

proof fn visited_weight(items: Seq<DirItem>, g: spec_fn(FileInfoView) -> nat, depth: nat)
    requires
        depth <= 32,
    ensures
        total(visited(items, depth), g) == weight_within(items, g, (32 - depth) as nat),
    decreases 33 - depth, items.len() + 1,
{
    parts_weight(items, g, depth);
    crate::seqs::total_concat(items.filter_map(as_file()), visited_below(items, depth), g);
}

proof fn parts_weight(items: Seq<DirItem>, g: spec_fn(FileInfoView) -> nat, depth: nat)
    requires
        depth <= 32,
    ensures
        total(items.filter_map(as_file()), g) + total(visited_below(items, depth), g)
            == weight_within(items, g, (32 - depth) as nat),
    decreases 33 - depth, items.len(),
{
    let n = (32 - depth) as nat;
    if items.len() == 0 {
        weight_of_nothing(items, g, n);
        assert(items.filter_map(as_file()) =~= Seq::empty());
    } else {
        let front = items.drop_last();
        parts_weight(front, g, depth);
        weight_of_last(items, g, n);
        match items.last() {
            DirItem::File(f) => {
                let own = front.filter_map(as_file());
                assert(items.filter_map(as_file()) =~= own.push(f@));
                crate::seqs::total_push(own, f@, g);
                assert(visited_below(items, depth) =~= visited_below(front, depth));
            },
            DirItem::Dir { items: inner, .. } => {
                assert(items.filter_map(as_file()) =~= front.filter_map(as_file()));
                crate::seqs::total_concat(
                    visited(inner@, depth + 1),
                    visited_below(front, depth),
                    g,
                );
                if depth < 32 {
                    visited_weight(inner@, g, depth + 1);
                }
            },
            DirItem::Symlink { .. } => {
                assert(items.filter_map(as_file()) =~= front.filter_map(as_file()));
                assert(visited_below(items, depth) =~= visited_below(front, depth));
            },
        }
    }
}

/// A walk visits the files that lie at most thirty-two directories below the
/// listing, each as often as it lies there, and no others: by whatever the files
/// are weighed, what is visited weighs what lies there.
pub proof fn all_files_down_to_the_limit_are_visited(
    items: Seq<DirItem>,
    g: spec_fn(FileInfoView) -> nat,
)
    ensures
        MAX_DEPTH == 32,
        total(visited(items, 0), g) == weight_within(items, g, 32),
{
    visited_weight(items, g, 0);
}

/// One for the file `f`.
pub open spec fn one_for(f: FileInfoView) -> spec_fn(FileInfoView) -> nat {
    |g: FileInfoView|
        if g == f {
            1nat
        } else {
            0nat
        }
}

/// The file `f` lies at most thirty-two directories below a listing.
pub open spec fn lies_within(items: Seq<DirItem>, f: FileInfoView) -> bool {
    weight_within(items, one_for(f), 32) > 0
}

/// A file is visited where it lies within reach, and only there.
pub proof fn visited_files_lie_within_reach(items: Seq<DirItem>, f: FileInfoView)
    ensures
        visited(items, 0).contains(f) <==> lies_within(items, f),
{
    let files = visited(items, 0);
    all_files_down_to_the_limit_are_visited(items, one_for(f));
    if files.contains(f) {
        let i = choose|i: int| 0 <= i < files.len() && files[i] == f;
        crate::seqs::total_counts(files, one_for(f), i);
    }
    if total(files, one_for(f)) > 0 {
        let i = crate::seqs::total_is_counted(files, one_for(f));
        assert(files[i] == f);
    }
}

/// A file in a listing lies within reach, and so does what lies within reach of
/// a directory in it, down to the limit.
pub proof fn files_in_a_listing_lie_within_reach(items: Seq<DirItem>, i: int)
    requires
        0 <= i < items.len(),
        items[i] is File,
    ensures
        lies_within(items, items[i]->File_0@),
    decreases items.len(),
{
    let f = items[i]->File_0@;
    weight_of_last(items, one_for(f), 32);
    if i < items.len() - 1 {
        assert(items.drop_last()[i] == items[i]);
        files_in_a_listing_lie_within_reach(items.drop_last(), i);
    }
}

proof fn latest_is_latest(files: Seq<FileInfoView>)
    ensures
        forall|i: int|
            0 <= i < files.len() && (#[trigger] files[i]).modified is Some ==> latest(
                files,
            ) is Some && files[i].modified->0 <= latest(files)->0,
        latest(files) is Some ==> exists|i: int|
            0 <= i < files.len() && (#[trigger] files[i]).modified == latest(files),
    decreases files.len(),
{
    if files.len() > 0 {
        let front = files.drop_last();
        latest_is_latest(front);
        assert forall|i: int| 0 <= i < files.len() && (
        #[trigger] files[i]).modified is Some implies latest(files) is Some
            && files[i].modified->0 <= latest(files)->0 by {
            if i < front.len() {
                assert(front[i] == files[i]);
            }
        }
        if latest(files) is Some {
            if latest(files) == latest(front) {
                let i = choose|i: int|
                    0 <= i < front.len() && (#[trigger] front[i]).modified == latest(front);
                assert(files[i].modified == latest(files));
            } else {
                assert(files[files.len() - 1].modified == latest(files));
            }
        }
    }
}

/// The age of an entry is the number of whole days since it was modified. What
/// is modified in the future is of today.
pub open spec fn is_age(age_days: Option<u64>, modified: Option<i128>, now: i128) -> bool {
    &&& age_days is Some <==> modified is Some
    &&& age_days is Some && now < modified->0 ==> age_days->0 == 0
    &&& age_days is Some && now >= modified->0 ==> {
        let span = now - modified->0;
        &&& age_days->0 * 86_400_000_000_000 <= span
        &&& span < (age_days->0 + 1) * 86_400_000_000_000 || age_days->0 == u64::MAX
    }
}

/// The entry is new: nothing has been said of it, and it is not selected.
pub open spec fn is_untouched(e: ScanEntryView) -> bool {
    &&& e.in_use is None
    &&& e.duplicate is None
    &&& !e.recommended
    &&& !e.selected
    &&& e.reason.len() == 0
}

/// A directory is one entry of a rule that takes everything, with the size, the
/// number and the latest modification of all files within reach in it. Where
/// there are none, it is no entry.
pub proof fn a_directory_counts_all_that_is_in_it(
    rule_id: Seq<char>,
    path: FilePath,
    inner: Vec<DirItem>,
    now: i128,
)
    requires
        weight_within(inner@, |f: FileInfoView| f.size as nat, 32) <= u64::MAX,
        weight_within(inner@, |f: FileInfoView| 1nat, 32) <= u64::MAX,
    ensures
        ({
            let r = child_entry(rule_id, now)(DirItem::Dir { path, items: inner });
            let count = weight_within(inner@, |f: FileInfoView| 1nat, 32);
            &&& r is Some <==> count > 0
            &&& r is Some ==> {
                &&& r->0.rule_id == rule_id
                &&& r->0.path == path@
                &&& r->0.size == weight_within(inner@, |f: FileInfoView| f.size as nat, 32)
                &&& r->0.file_count == count
                &&& forall|f: FileInfoView|
                    #[trigger] lies_within(inner@, f) && f.modified is Some
                        ==> r->0.modified is Some && f.modified->0 <= r->0.modified->0
                &&& r->0.modified is Some ==> exists|f: FileInfoView|
                    #[trigger] lies_within(inner@, f) && f.modified == r->0.modified
                &&& is_age(r->0.age_days, r->0.modified, now)
                &&& is_untouched(r->0)
            }
        }),
{
    let files = visited(inner@, 0);
    let size = |f: FileInfoView| f.size as nat;
    let one = |f: FileInfoView| 1nat;
    all_files_down_to_the_limit_are_visited(inner@, size);
    all_files_down_to_the_limit_are_visited(inner@, one);
    assert(size =~= file_size());
    all_count_one(files, one);
    latest_is_latest(files);
    assert forall|f: FileInfoView| #[trigger] lies_within(inner@, f) && f.modified is Some implies {
        &&& latest(files) is Some
        &&& f.modified->0 <= latest(files)->0
    } by {
        visited_files_lie_within_reach(inner@, f);
        let i = choose|i: int| 0 <= i < files.len() && files[i] == f;
        assert(files[i].modified is Some);
    }
    if latest(files) is Some {
        let i = choose|i: int|
            0 <= i < files.len() && (#[trigger] files[i]).modified == latest(files);
        assert(files.contains(files[i]));
        visited_files_lie_within_reach(inner@, files[i]);
    }
}

proof fn all_count_one(files: Seq<FileInfoView>, one: spec_fn(FileInfoView) -> nat)
    requires
        forall|f: FileInfoView| #[trigger] one(f) == 1,
    ensures
        total(files, one) == files.len(),
    decreases files.len(),
{
    if files.len() > 0 {
        all_count_one(files.drop_last(), one);
    }
}

/// A file is an entry of a rule that takes everything as it is, and a link by
/// itself, without what it points to.
pub proof fn files_and_links_are_entries_by_themselves(
    rule_id: Seq<char>,
    item: DirItem,
    now: i128,
)
    requires
        !(item is Dir),
    ensures
        ({
            let r = child_entry(rule_id, now)(item);
            &&& r is Some
            &&& r->0.rule_id == rule_id
            &&& r->0.file_count == 1
            &&& item is File ==> r->0.path == item->File_0@.path && r->0.size
                == item->File_0@.size && r->0.modified == item->File_0@.modified
            &&& item is Symlink ==> r->0.path == item->Symlink_path@ && r->0.size == item->size
                && r->0.modified is None
            &&& is_age(r->0.age_days, r->0.modified, now)
            &&& is_untouched(r->0)
        }),
{
}

/// A rule that takes everything finds each thing that lies right in its base, in
/// the order of the listing, but for directories without files within reach.
pub proof fn all_that_lies_in_the_base_is_found(
    rule: RuleView,
    items: Seq<DirItem>,
    i: int,
    now: i128,
) -> (k: int)
    requires
        rule.match_kind is All,
        0 <= i < items.len(),
        items[i] is Dir ==> weight_within(items[i]->items@, |f: FileInfoView| 1nat, 32) > 0,
    ensures
        0 <= k < found(rule, items, now).len(),
        found(rule, items, now)[k].rule_id == rule.id,
        items[i] is File ==> found(rule, items, now)[k].path == items[i]->File_0@.path,
        items[i] is Dir ==> found(rule, items, now)[k].path == items[i]->Dir_path@,
        items[i] is Symlink ==> found(rule, items, now)[k].path == items[i]->Symlink_path@,
        found(rule, items, now)[k] == child_entry(rule.id, now)(items[i])->0,
{
    if items[i] is Dir {
        let inner = items[i]->items@;
        let one = |f: FileInfoView| 1nat;
        all_files_down_to_the_limit_are_visited(inner, one);
        all_count_one(visited(inner, 0), one);
    }
    crate::seqs::filter_map_keeps(items, child_entry(rule.id, now), i)
}

/// The last component of a path is a name that ends in a dot and `ext`, behind
/// at least one character.
pub open spec fn ends_in(path: FilePathView, stem: Seq<char>, ext: Seq<char>) -> bool {
    &&& path.parts.len() > 0
    &&& path.parts.last() == PathPartView::Normal(stem + seq!['.'] + ext)
    &&& stem.len() > 0
    &&& !ext.contains('.')
}

proof fn extension_follows_the_last_dot(stem: Seq<char>, ext: Seq<char>)
    requires
        stem.len() > 0,
        !ext.contains('.'),
    ensures
        extension_of(stem + seq!['.'] + ext) == Some(ext),
{
    let name = stem + seq!['.'] + ext;
    let n = stem.len() as int;
    assert forall|j: int| n < j < name.len() implies name[j] != '.' by {
        assert(name[j] == ext[j - n - 1]);
    }
    assert(is_last_dot(name, n));
    let i = choose|i: int| #[trigger] is_last_dot(name, i) && i > 0;
    assert(i == n);
    assert(name.skip(n + 1) =~= ext);
}

proof fn an_extension_is_behind_a_dot(name: Seq<char>) -> (stem: Seq<char>)
    requires
        extension_of(name) is Some,
    ensures
        stem.len() > 0,
        name == stem + seq!['.'] + extension_of(name)->0,
        !extension_of(name)->0.contains('.'),
{
    let i = choose|i: int| #[trigger] is_last_dot(name, i) && i > 0;
    let ext = name.skip(i + 1);
    assert(name =~= name.take(i) + seq!['.'] + ext);
    if ext.contains('.') {
        let j = choose|j: int| 0 <= j < ext.len() && ext[j] == '.';
        assert(name[i + 1 + j] == '.');
    }
    name.take(i)
}

/// A rule that takes files by their extension takes each file whose name ends in
/// a dot and one of the extensions, in whatever case.
pub proof fn files_with_the_extension_are_taken(
    rule: RuleView,
    f: FileInfoView,
    stem: Seq<char>,
    ext: Seq<char>,
    j: int,
    now: i128,
)
    requires
        rule.match_kind is Extension,
        ends_in(f.path, stem, ext),
        0 <= j < rule.match_kind->Extension_0.len(),
        lowercase(rule.match_kind->Extension_0[j]) == lowercase(ext),
    ensures
        takes_file(rule, f, now),
{
    extension_follows_the_last_dot(stem, ext);
}

/// A rule that takes files by their extension takes no other files.
pub proof fn taken_files_have_the_extension(rule: RuleView, f: FileInfoView, now: i128) -> (r: (
    Seq<char>,
    Seq<char>,
    int,
))
    requires
        rule.match_kind is Extension,
        takes_file(rule, f, now),
    ensures
        ends_in(f.path, r.0, r.1),
        0 <= r.2 < rule.match_kind->Extension_0.len(),
        lowercase(rule.match_kind->Extension_0[r.2]) == lowercase(r.1),
{
    let name = f.path.parts.last()->Normal_0;
    let ext = extension_of(name)->0;
    let stem = an_extension_is_behind_a_dot(name);
    let exts = rule.match_kind->Extension_0;
    let j = choose|i: int| 0 <= i < exts.len() && lowercase(#[trigger] exts[i]) == lowercase(ext);
    (stem, ext, j)
}

/// A rule that takes old files takes each file whose last modification is known
/// and as many whole days ago as its threshold, and no others.
pub proof fn old_files_are_taken(rule: RuleView, f: FileInfoView, now: i128)
    requires
        rule.match_kind is OlderThan,
        rule.age_threshold_days is Some,
        rule.age_threshold_days->0 > 0,
    ensures
        takes_file(rule, f, now) <==> f.modified is Some && now - f.modified->0
            >= rule.age_threshold_days->0 * 86_400_000_000_000,
{
}

/// Each file within reach that a rule takes is an entry of its own.
pub proof fn taken_files_are_found(
    rule: RuleView,
    items: Seq<DirItem>,
    f: FileInfoView,
    now: i128,
) -> (k: int)
    requires
        !(rule.match_kind is All),
        lies_within(items, f),
        takes_file(rule, f, now),
    ensures
        0 <= k < found(rule, items, now).len(),
        ({
            let e = found(rule, items, now)[k];
            &&& e.rule_id == rule.id
            &&& e.path == f.path
            &&& e.size == f.size
            &&& e.file_count == 1
            &&& e.modified == f.modified
            &&& is_age(e.age_days, e.modified, now)
            &&& is_untouched(e)
        }),
{
    let files = visited(items, 0);
    visited_files_lie_within_reach(items, f);
    let i = choose|i: int| 0 <= i < files.len() && files[i] == f;
    crate::seqs::filter_map_keeps(files, file_entry(rule, now), i)
}

/// There are as many entries as files within reach that the rule takes.
pub proof fn only_taken_files_are_found(rule: RuleView, items: Seq<DirItem>, now: i128)
    requires
        !(rule.match_kind is All),
    ensures
        found(rule, items, now).len() == weight_within(
            items,
            |f: FileInfoView|
                if takes_file(rule, f, now) {
                    1nat
                } else {
                    0nat
                },
            32,
        ),
{
    let one = |f: FileInfoView|
        if takes_file(rule, f, now) {
            1nat
        } else {
            0nat
        };
    all_files_down_to_the_limit_are_visited(items, one);
    crate::seqs::filter_map_count(visited(items, 0), file_entry(rule, now), one);
}

/// What is found is scanned: it is among the entries of the scan, with its rule,
/// path, size, files and age. Only whether it is in use is asked, of a single
/// file, and it is selected as is recommended.
pub proof fn what_is_found_is_scanned<P: Platform + ?Sized>(
    platform: &P,
    rules: Seq<RuleView>,
    lang: Lang,
    listings: Seq<Vec<DirItem>>,
    now: i128,
    answers: Seq<Option<bool>>,
    k: int,
    m: int,
) -> (j: int)
    requires
        0 <= k < targets_of(platform, rules).len(),
        0 <= m < found(
            targets_of(platform, rules)[k].rule,
            listing_at(listings, k),
            now,
        ).len(),
    ensures
        0 <= j < scanned(platform, rules, lang, listings, now, answers).len(),
        ({
            let o = found(targets_of(platform, rules)[k].rule, listing_at(listings, k), now)[m];
            let e = scanned(platform, rules, lang, listings, now, answers)[j];
            &&& e.rule_id == o.rule_id
            &&& e.path == o.path
            &&& e.size == o.size
            &&& e.file_count == o.file_count
            &&& e.modified == o.modified
            &&& e.age_days == o.age_days
            &&& e.duplicate == o.duplicate
            &&& e.in_use == (if o.file_count == 1 {
                answers[j]
            } else {
                o.in_use
            })
        }),
{
    let targets = targets_of(platform, rules);
    let own = found(targets[k].rule, listing_at(listings, k), now);
    by_path_is_sorted(own);
    let order = choose|order: Seq<int>| #[trigger]
        is_path_order(own, order) && by_path(own) =~= order.map_values(|i: int| own[i]);
    assert(order.contains(m));
    let i = choose|i: int| 0 <= i < order.len() && order[i] == m;
    assert(by_path(own)[i] == own[m]);
    entries_of_target(targets, listings, now, k, i);
    start_of(targets, listings, now, k) + i
}

/// A rule is scanned where, and only where, it needs no administrator rights or
/// has them, it says how old files must be if it takes old ones, its base is
/// known, and that base is in no administrator area that it may not touch. The
/// first of these that fails is the reason for which it is skipped.
pub proof fn which_rules_are_scanned<P: Platform + ?Sized>(platform: &P, rule: RuleView)
    ensures
        ({
            let lacks_rights = rule.needs_admin && !platform.elevated();
            let lacks_threshold = rule.match_kind is OlderThan && rule.age_threshold_days is None;
            let base = platform.dir_of(rule.base);
            let is_barred = base is Some && platform.admin(base->0) && !(rule.needs_admin
                && platform.elevated());
            let r = resolution(platform, rule);
            &&& r is Ok <==> !lacks_rights && !lacks_threshold && base is Some && !is_barred
            &&& r is Ok ==> r->Ok_0 == base->0
            &&& r is Err && r->Err_0 == SkipReason::NeedsAdmin <==> lacks_rights || (
            !lacks_threshold && is_barred)
            &&& r is Err && r->Err_0 == SkipReason::MissingThreshold <==> !lacks_rights
                && lacks_threshold
            &&& r is Err && r->Err_0 == SkipReason::UnknownBase <==> !lacks_rights
                && !lacks_threshold && base is None
        }),
{
}

/// Each rule that can be scanned has its target, and each other rule is reported
/// with its reason.
pub proof fn every_rule_has_its_target_or_its_report<P: Platform + ?Sized>(
    platform: &P,
    rules: Seq<RuleView>,
    i: int,
) -> (k: int)
    requires
        0 <= i < rules.len(),
    ensures
        resolution(platform, rules[i]) is Ok ==> {
            let targets = targets_of(platform, rules);
            &&& 0 <= k < targets.len()
            &&& targets[k].rule == rules[i]
            &&& platform.dir_of(rules[i].base) == Some(targets[k].base)
        },
        resolution(platform, rules[i]) is Err ==> {
            let skips = rules.filter_map(skip_of(platform));
            &&& 0 <= k < skips.len()
            &&& skips[k] is RuleSkipped
            &&& skips[k]->RuleSkipped_rule_id == rules[i].id
            &&& skips[k]->reason == resolution(platform, rules[i])->Err_0
        },
{
    if resolution(platform, rules[i]) is Ok {
        crate::seqs::filter_map_keeps(rules, target_of(platform), i)
    } else {
        crate::seqs::filter_map_keeps(rules, skip_of(platform), i)
    }
}

/// An entry has the recommendation of its rule and is selected accordingly;
/// nothing else of it changes, and nothing at all where its rule is unknown.
pub proof fn entries_are_selected_as_recommended(
    entries: Seq<ScanEntryView>,
    rules: Seq<RuleView>,
    lang: Lang,
    i: int,
    r: int,
)
    requires
        0 <= i < entries.len(),
        0 <= r <= rules.len(),
        r < rules.len() ==> rules[r].id == entries[i].rule_id,
        forall|q: int| 0 <= q < r ==> (#[trigger] rules[q]).id != entries[i].rule_id,
    ensures
        ({
            let after = with_recommendations(entries, rules, lang);
            &&& after.len() == entries.len()
            &&& r == rules.len() ==> after[i] == entries[i]
            &&& r < rules.len() ==> after[i] == (ScanEntryView {
                recommended: recommendation(entries[i], rules[r], lang).recommended,
                selected: recommendation(entries[i], rules[r], lang).recommended,
                reason: recommendation(entries[i], rules[r], lang).reason,
                ..entries[i]
            })
        }),
{
    crate::rule::first_rule_is_the_first(rules, entries[i].rule_id, r);
}

/// What the user wants decides what is selected, and changes nothing else: what
/// is always selected is, what is excluded is not, and everything else is as it
/// is recommended.
pub proof fn wishes_decide_what_is_selected(
    entries: Seq<ScanEntryView>,
    config: Config,
    i: int,
)
    requires
        0 <= i < entries.len(),
    ensures
        ({
            let after = with_prefs(entries, config);
            let wish = config.rule_prefs.value(entries[i].rule_id);
            &&& after.len() == entries.len()
            &&& after[i] == (ScanEntryView { selected: after[i].selected, ..entries[i] })
            &&& wish == Some(RulePref::AlwaysSelect) ==> after[i].selected
            &&& wish == Some(RulePref::Exclude) ==> !after[i].selected
            &&& wish is None || wish == Some(RulePref::AskEachTime) ==> after[i].selected
                == entries[i].recommended
        }),
{
}

/// Only what is safe is scanned unless everything is asked for.
pub proof fn scopes_hold_what_is_asked_for(all: bool, safety: Safety)
    ensures
        scope(all).contains(safety) <==> all || safety == Safety::Safe,
{
    assert(scope(true)[0] == Safety::Safe);
    assert(scope(true)[1] == Safety::Caution);
    assert(scope(true)[2] == Safety::Review);
    assert(scope(false)[0] == Safety::Safe);
}

/// A walk reports after every 512 files, and then tells how many there were so
/// far and how many bytes they count.
pub proof fn when_a_walk_reports<A>(
    rule_id: Seq<char>,
    looked_at: Seq<A>,
    bytes: spec_fn(A) -> nat,
    k: int,
)
    ensures
        walking(rule_id, looked_at, bytes).len() == looked_at.len() / 512,
        0 <= k < looked_at.len() / 512 ==> walking(rule_id, looked_at, bytes)[k] == (
        ScanProgressView::Walking {
            rule_id,
            files_scanned: (512 * (k + 1)) as nat,
            bytes_scanned: total(looked_at.take(512 * (k + 1)), bytes),
        }),
    decreases looked_at.len(),
{
    if looked_at.len() > 0 {
        let front = looked_at.drop_last();
        when_a_walk_reports(rule_id, front, bytes, k);
        if 0 <= k < front.len() / 512 {
            assert(front.take(512 * (k + 1)) =~= looked_at.take(512 * (k + 1)));
        } else if 0 <= k < looked_at.len() / 512 {
            assert(looked_at.take(512 * (k + 1)) =~= looked_at);
        }
    }
}

/// The reports of a rule begin with where it looks and end with what it found
/// there.
pub proof fn what_a_rule_reports(target: ScanTargetView, items: Seq<DirItem>, now: i128)
    ensures
        ({
            let reports = target_reports(target, items, now);
            let entries = found(target.rule, items, now);
            &&& reports.len() >= 2
            &&& reports[0] == (ScanProgressView::RuleStarted {
                rule_id: target.rule.id,
                base: target.base,
            })
            &&& reports.last() == (ScanProgressView::RuleFinished {
                rule_id: target.rule.id,
                entries: entries.len(),
                total_size: total(entries, entry_size()),
            })
            &&& forall|k: int|
                0 < k < reports.len() - 1 ==> (#[trigger] reports[k]) is Walking
        }),
{
    let reports = target_reports(target, items, now);
    let between = walking_reports(target.rule, items, now);
    assert forall|k: int| 0 < k < reports.len() - 1 implies (#[trigger] reports[k]) is Walking by {
        assert(reports[k] == between[k - 1]);
        match target.rule.match_kind {
            MatchKindView::All => {
                when_a_walk_reports(
                    target.rule.id,
                    found(target.rule, items, now),
                    entry_size(),
                    k - 1,
                );
            },
            _ => {
                when_a_walk_reports(
                    target.rule.id,
                    visited(items, 0),
                    taken_bytes(target.rule, now),
                    k - 1,
                );
            },
        }
    }
}

/// A rule is kept if and only if its safety is one of those asked for.
pub proof fn which_safeties_are_kept(rules: Seq<RuleView>, safeties: Seq<Safety>, k: int)
    requires
        0 <= k < rules.len(),
    ensures
        rules.filter(with_safety(safeties)).contains(rules[k]) <==> exists|i: int|
            0 <= i < safeties.len() && #[trigger] safeties[i] == rules[k].safety,
{
    let keep = with_safety(safeties);
    if exists|i: int| 0 <= i < safeties.len() && #[trigger] safeties[i] == rules[k].safety {
        rules.lemma_filter_contains(keep, k);
    }
    if rules.filter(keep).contains(rules[k]) {
        let kept = rules.filter(keep);
        let i = choose|i: int| 0 <= i < kept.len() && kept[i] == rules[k];
        rules.lemma_filter_pred(keep, i);
    }
}

} // verus!
