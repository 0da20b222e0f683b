//! Getting deleted items back from the trash.
//!
//! The trash is matched against the deletion log, so that each item can be
//! traced to the run that deleted it. Nothing here deletes anything.

use crate::audit::{record_views, AuditRecord, AuditRecordView};
use crate::delete::{DeleteAction, ItemOutcome, ItemOutcomeView};
use crate::path::{FilePath, FilePathView};
use crate::platform::{Platform, PlatformError, RestoreItemOutcome, TrashEntry, TrashEntryView};
use crate::seqs::{total, total_take};
use crate::text::texts_of;
use vstd::prelude::*;

verus! {

/// An item in the trash, with what the log knows of it.
#[derive(Debug, PartialEq, Eq)]
pub struct RestoreCandidate {
    /// The item.
    pub entry: TrashEntry,
    /// The id of the rule that found it; `None` where the log does not show
    /// that it was deleted here.
    pub rule_id: Option<String>,
    /// The run that deleted it, likewise.
    pub run_id: Option<u64>,
}

/// The value of a [`RestoreCandidate`].
#[verifier::ext_equal]
pub struct RestoreCandidateView {
    pub entry: TrashEntryView,
    pub rule_id: Option<Seq<char>>,
    pub run_id: Option<u64>,
}

impl View for RestoreCandidate {
    type V = RestoreCandidateView;

    open spec fn view(&self) -> RestoreCandidateView {
        RestoreCandidateView {
            entry: self.entry@,
            rule_id: match self.rule_id {
                Some(s) => Some(s@),
                None => None,
            },
            run_id: self.run_id,
        }
    }
}

impl Clone for RestoreCandidate {
    fn clone(&self) -> (r: RestoreCandidate)
        ensures
            r@ == self@,
    {
        RestoreCandidate {
            entry: self.entry.clone(),
            rule_id: match &self.rule_id {
                Some(s) => Some(s.clone()),
                None => None,
            },
            run_id: self.run_id,
        }
    }
}

/// The values of a list of items.
pub open spec fn trash_views(trash: Seq<TrashEntry>) -> Seq<TrashEntryView> {
    trash.map_values(|t: TrashEntry| t@)
}

/// The values of a list of candidates.
pub open spec fn candidate_views(candidates: Seq<RestoreCandidate>) -> Seq<RestoreCandidateView> {
    candidates.map_values(|c: RestoreCandidate| c@)
}

/// The record shows that something was moved to the trash from where the item
/// was.
pub open spec fn is_match(entry: TrashEntryView, record: AuditRecordView) -> bool {
    &&& record.path.parts == entry.original_path.parts
    &&& record.action == DeleteAction::ToTrash
    &&& record.outcome == ItemOutcomeView::Deleted
}

/// How far apart two times are.
pub open spec fn distance(a: u64, b: u64) -> nat {
    if a < b {
        (b - a) as nat
    } else {
        (a - b) as nat
    }
}

/// Of two records that match, `a` fits the item better than `b`, which comes
/// later in the log: it is as near to the time of deletion, or, where that is
/// not known, more recent.
pub open spec fn fits_better(
    entry: TrashEntryView,
    a: AuditRecordView,
    b: AuditRecordView,
) -> bool {
    match entry.deleted_at_secs {
        Some(at) => distance(a.timestamp_secs, at) <= distance(b.timestamp_secs, at),
        None => a.timestamp_secs > b.timestamp_secs,
    }
}

/// The record `k` fits the item best: it matches, no later match fits better,
/// and no earlier one as well.
pub open spec fn is_best(entry: TrashEntryView, log: Seq<AuditRecordView>, k: int) -> bool {
    &&& 0 <= k < log.len()
    &&& is_match(entry, log[k])
    &&& forall|j: int|
        k < j < log.len() && is_match(entry, #[trigger] log[j]) ==> fits_better(
            entry,
            log[k],
            log[j],
        )
    &&& forall|j: int|
        0 <= j < k && is_match(entry, #[trigger] log[j]) ==> !fits_better(entry, log[j], log[k])
}

/// The candidate is the item with what the best matching record says, or with
/// nothing where no record matches.
pub open spec fn is_traced(
    entry: TrashEntryView,
    log: Seq<AuditRecordView>,
    candidate: RestoreCandidateView,
) -> bool {
    &&& candidate.entry == entry
    &&& if exists|j: int| 0 <= j < log.len() && is_match(entry, #[trigger] log[j]) {
        exists|k: int| #[trigger]
            is_best(entry, log, k) && candidate.rule_id == Some(log[k].rule_id)
                && candidate.run_id == Some(log[k].run_id)
    } else {
        candidate.rule_id is None && candidate.run_id is None
    }
}

fn matches_entry(entry: &TrashEntry, record: &AuditRecord) -> (r: bool)
    ensures
        r == is_match(entry@, record@),
{
    let deleted = match record.outcome {
        ItemOutcome::Deleted => true,
        _ => false,
    };
    record.path.same_place(&entry.original_path) && record.action == DeleteAction::ToTrash
        && deleted
}

fn time_distance(a: u64, b: u64) -> (r: u64)
    ensures
        r == distance(a, b),
{
    if a < b {
        b - a
    } else {
        a - b
    }
}

fn fits(entry: &TrashEntry, a: &AuditRecord, b: &AuditRecord) -> (r: bool)
    ensures
        r == fits_better(entry@, a@, b@),
{
    match entry.deleted_at_secs {
        Some(at) => time_distance(a.timestamp_secs, at) <= time_distance(b.timestamp_secs, at),
        None => a.timestamp_secs > b.timestamp_secs,
    }
}

/// The item with what the log knows of it.
fn trace(entry: &TrashEntry, log: &[AuditRecord]) -> (r: RestoreCandidate)
    ensures
        is_traced(entry@, record_views(log@), r@),
{
    let ghost all = record_views(log@);
    let mut best: Option<usize> = None;
    let mut i: usize = 0;
    while i < log.len()
        invariant
            i <= log@.len(),
            all == record_views(log@),
            best is None ==> forall|j: int| 0 <= j < i ==> !is_match(entry@, #[trigger] all[j]),
            best is Some ==> best->0 < i && is_best(entry@, all.take(i as int), best->0 as int),
        decreases log@.len() - i,
    {
        let ghost seen = all.take(i as int);
        let ghost now = all.take(i + 1);
        assert(all[i as int] == log@[i as int]@);
        if matches_entry(entry, &log[i]) {
            match best {
                Some(k) => {
                    assert(all[k as int] == log@[k as int]@);
                    assert(seen[k as int] == all[k as int]);
                    if !fits(entry, &log[k], &log[i]) {
                        best = Some(i);
                        proof {
                            assert forall|j: int|
                                0 <= j < i && is_match(
                                    entry@,
                                    #[trigger] now[j],
                                ) implies !fits_better(entry@, now[j], now[i as int]) by {
                                assert(now[j] == seen[j]);
                                assert(is_match(entry@, seen[j]));
                                if j < k {
                                    assert(!fits_better(entry@, seen[j], seen[k as int]));
                                } else if j > k {
                                    assert(fits_better(entry@, seen[k as int], seen[j]));
                                }
                            }
                            assert(is_best(entry@, now, i as int));
                        }
                    } else {
                        proof {
                            assert forall|j: int|
                                k < j < now.len() && is_match(
                                    entry@,
                                    #[trigger] now[j],
                                ) implies fits_better(entry@, now[k as int], now[j]) by {
                                if j < i {
                                    assert(now[j] == seen[j]);
                                }
                            }
                            assert forall|j: int|
                                0 <= j < k && is_match(
                                    entry@,
                                    #[trigger] now[j],
                                ) implies !fits_better(entry@, now[j], now[k as int]) by {
                                assert(now[j] == seen[j]);
                            }
                            assert(is_best(entry@, now, k as int));
                        }
                    }
                },
                None => {
                    best = Some(i);
                    proof {
                        assert forall|j: int| 0 <= j < i implies !is_match(
                            entry@,
                            #[trigger] now[j],
                        ) by {
                            assert(now[j] == all[j]);
                        }
                        assert(is_best(entry@, now, i as int));
                    }
                },
            }
        } else {
            proof {
                if let Some(k) = best {
                    assert forall|j: int|
                        k < j < now.len() && is_match(
                            entry@,
                            #[trigger] now[j],
                        ) implies fits_better(entry@, now[k as int], now[j]) by {
                        if j < i {
                            assert(now[j] == seen[j]);
                        }
                    }
                    assert forall|j: int|
                        0 <= j < k && is_match(
                            entry@,
                            #[trigger] now[j],
                        ) implies !fits_better(entry@, now[j], now[k as int]) by {
                        assert(now[j] == seen[j]);
                    }
                    assert(now[k as int] == seen[k as int]);
                    assert(is_best(entry@, now, k as int));
                }
            }
        }
        i = i + 1;
    }
    assert(all.take(i as int) =~= all);
    match best {
        Some(k) => {
            assert(all[k as int] == log@[k as int]@);
            assert(is_match(entry@, all[k as int]));
            RestoreCandidate {
                entry: entry.clone(),
                rule_id: Some(log[k].rule_id.clone()),
                run_id: Some(log[k].run_id),
            }
        },
        None => RestoreCandidate { entry: entry.clone(), rule_id: None, run_id: None },
    }
}

/// The items in the trash with what the log knows of them, in the order of the
/// trash.
pub fn correlate(trash: &[TrashEntry], audit: &[AuditRecord]) -> (r: Vec<RestoreCandidate>)
    ensures
        r@.len() == trash@.len(),
        forall|i: int|
            0 <= i < trash@.len() ==> is_traced(
                trash@[i]@,
                record_views(audit@),
                (#[trigger] r@[i])@,
            ),
{
    let mut r: Vec<RestoreCandidate> = Vec::new();
    let mut i: usize = 0;
    while i < trash.len()
        invariant
            i <= trash@.len(),
            r@.len() == i,
            forall|j: int|
                0 <= j < i ==> is_traced(
                    trash@[j]@,
                    record_views(audit@),
                    (#[trigger] r@[j])@,
                ),
        decreases trash@.len() - i,
    {
        r.push(trace(&trash[i], audit));
        i = i + 1;
    }
    r
}

/// The best match is unique: what an item is traced to is settled by the trash
/// and the log.
pub proof fn trace_is_unique(
    entry: TrashEntryView,
    log: Seq<AuditRecordView>,
    a: RestoreCandidateView,
    b: RestoreCandidateView,
)
    requires
        is_traced(entry, log, a),
        is_traced(entry, log, b),
    ensures
        a == b,
{
    if exists|j: int| 0 <= j < log.len() && is_match(entry, #[trigger] log[j]) {
        let x = choose|k: int| #[trigger]
            is_best(entry, log, k) && a.rule_id == Some(log[k].rule_id) && a.run_id == Some(
                log[k].run_id,
            );
        let y = choose|k: int| #[trigger]
            is_best(entry, log, k) && b.rule_id == Some(log[k].rule_id) && b.run_id == Some(
                log[k].run_id,
            );
        assert(is_best(entry, log, x) && is_best(entry, log, y));
        assert(x == y);
    }
}

/// The candidates of the run `run_id`.
pub open spec fn of_run(run_id: u64) -> spec_fn(RestoreCandidateView) -> bool {
    |c: RestoreCandidateView| c.run_id == Some(run_id)
}

/// The candidates that the run `run_id` deleted, in their order.
pub fn candidates_for_run(candidates: &[RestoreCandidate], run_id: u64) -> (r: Vec<
    &RestoreCandidate,
>)
    ensures
        r@.map_values(|x: &RestoreCandidate| x@) == candidate_views(candidates@).filter(
            of_run(run_id),
        ),
{
    let ghost all = candidate_views(candidates@);
    let ghost keep = of_run(run_id);
    let mut r: Vec<&RestoreCandidate> = Vec::new();
    let mut i: usize = 0;
    assert(r@.map_values(|x: &RestoreCandidate| x@) =~= all.take(0).filter(keep)) by {
        reveal(Seq::filter);
    }
    while i < candidates.len()
        invariant
            i <= candidates@.len(),
            all == candidate_views(candidates@),
            keep == of_run(run_id),
            r@.map_values(|x: &RestoreCandidate| x@) == all.take(i as int).filter(keep),
        decreases candidates@.len() - i,
    {
        let candidate = &candidates[i];
        let ghost before = r@;
        proof {
            assert(all.take(i + 1) =~= all.take(i as int).push(candidate@));
            all.take(i as int).lemma_filter_push(candidate@, keep);
        }
        let belongs = match candidate.run_id {
            Some(id) => id == run_id,
            None => false,
        };
        if belongs {
            r.push(candidate);
            assert(r@.map_values(|x: &RestoreCandidate| x@) =~= before.map_values(
                |x: &RestoreCandidate| x@,
            ).push(candidate@));
        }
        i = i + 1;
    }
    assert(all.take(i as int) =~= all);
    r
}

/// What a restore came to: each item's original path and what became of it.
#[derive(Debug)]
pub struct RestoreOutcome {
    /// The results.
    pub results: Vec<(FilePath, RestoreItemOutcome)>,
}

/// One for a restored item.
pub open spec fn is_restored() -> spec_fn((FilePath, RestoreItemOutcome)) -> nat {
    |r: (FilePath, RestoreItemOutcome)|
        if r.1 is Restored {
            1nat
        } else {
            0nat
        }
}

/// One for an item whose place was taken.
pub open spec fn is_skipped() -> spec_fn((FilePath, RestoreItemOutcome)) -> nat {
    |r: (FilePath, RestoreItemOutcome)|
        if r.1 is SkippedCollision {
            1nat
        } else {
            0nat
        }
}

/// One for an item that was not found.
pub open spec fn is_not_found() -> spec_fn((FilePath, RestoreItemOutcome)) -> nat {
    |r: (FilePath, RestoreItemOutcome)|
        if r.1 is NotFound {
            1nat
        } else {
            0nat
        }
}

/// One for an item that failed.
pub open spec fn is_failed() -> spec_fn((FilePath, RestoreItemOutcome)) -> nat {
    |r: (FilePath, RestoreItemOutcome)|
        if r.1 is Failed {
            1nat
        } else {
            0nat
        }
}

impl RestoreOutcome {
    /// How many items were restored.
    pub fn restored_count(&self) -> (r: usize)
        ensures
            r == total(self.results@, is_restored()),
    {
        let mut n: usize = 0;
        let mut i: usize = 0;
        while i < self.results.len()
            invariant
                i <= self.results@.len(),
                n <= i,
                n == total(self.results@.take(i as int), is_restored()),
            decreases self.results@.len() - i,
        {
            proof {
                total_take(self.results@, i as int, is_restored());
            }
            match self.results[i].1 {
                RestoreItemOutcome::Restored => {
                    n = n + 1;
                },
                _ => {},
            }
            i = i + 1;
        }
        assert(self.results@.take(i as int) =~= self.results@);
        n
    }

    /// How many items were skipped because their place was taken.
    pub fn skipped_count(&self) -> (r: usize)
        ensures
            r == total(self.results@, is_skipped()),
    {
        let mut n: usize = 0;
        let mut i: usize = 0;
        while i < self.results.len()
            invariant
                i <= self.results@.len(),
                n <= i,
                n == total(self.results@.take(i as int), is_skipped()),
            decreases self.results@.len() - i,
        {
            proof {
                total_take(self.results@, i as int, is_skipped());
            }
            match self.results[i].1 {
                RestoreItemOutcome::SkippedCollision => {
                    n = n + 1;
                },
                _ => {},
            }
            i = i + 1;
        }
        assert(self.results@.take(i as int) =~= self.results@);
        n
    }

    /// How many items were not found.
    pub fn not_found_count(&self) -> (r: usize)
        ensures
            r == total(self.results@, is_not_found()),
    {
        let mut n: usize = 0;
        let mut i: usize = 0;
        while i < self.results.len()
            invariant
                i <= self.results@.len(),
                n <= i,
                n == total(self.results@.take(i as int), is_not_found()),
            decreases self.results@.len() - i,
        {
            proof {
                total_take(self.results@, i as int, is_not_found());
            }
            match self.results[i].1 {
                RestoreItemOutcome::NotFound => {
                    n = n + 1;
                },
                _ => {},
            }
            i = i + 1;
        }
        assert(self.results@.take(i as int) =~= self.results@);
        n
    }

    /// How many items failed.
    pub fn failed_count(&self) -> (r: usize)
        ensures
            r == total(self.results@, is_failed()),
    {
        let mut n: usize = 0;
        let mut i: usize = 0;
        while i < self.results.len()
            invariant
                i <= self.results@.len(),
                n <= i,
                n == total(self.results@.take(i as int), is_failed()),
            decreases self.results@.len() - i,
        {
            proof {
                total_take(self.results@, i as int, is_failed());
            }
            match self.results[i].1 {
                RestoreItemOutcome::Failed { .. } => {
                    n = n + 1;
                },
                _ => {},
            }
            i = i + 1;
        }
        assert(self.results@.take(i as int) =~= self.results@);
        n
    }
}

/// Every item of a restore is counted once.
pub proof fn restore_counts_are_complete(results: Seq<(FilePath, RestoreItemOutcome)>)
    ensures
        total(results, is_restored()) + total(results, is_skipped()) + total(
            results,
            is_not_found(),
        ) + total(results, is_failed()) == results.len(),
    decreases results.len(),
{
    if results.len() > 0 {
        restore_counts_are_complete(results.drop_last());
    }
}

/// The original path of the last candidate with the id `id`, or the empty path
/// where there is none.
pub open spec fn origin_of(candidates: Seq<RestoreCandidateView>, id: Seq<char>) -> FilePathView
    decreases candidates.len(),
{
    if candidates.len() == 0 {
        FilePathView { text: Seq::empty(), parts: Seq::empty() }
    } else if candidates.last().entry.id == id {
        candidates.last().entry.original_path
    } else {
        origin_of(candidates.drop_last(), id)
    }
}

/// The results are the reports, in their order, with each id turned back into
/// the original path of its candidate.
pub open spec fn results_follow(
    results: Seq<(FilePath, RestoreItemOutcome)>,
    candidates: Seq<RestoreCandidateView>,
    reports: Seq<(String, RestoreItemOutcome)>,
) -> bool {
    &&& results.len() == reports.len()
    &&& forall|i: int|
        0 <= i < reports.len() ==> {
            &&& (#[trigger] results[i]).0@ == origin_of(candidates, reports[i].0@)
            &&& results[i].1 == reports[i].1
        }
}

fn find_origin(candidates: &[RestoreCandidate], id: &str) -> (r: FilePath)
    ensures
        r@ == origin_of(candidate_views(candidates@), id@),
{
    let ghost all = candidate_views(candidates@);
    let mut n: usize = candidates.len();
    assert(all.take(n as int) =~= all);
    while n > 0
        invariant
            n <= candidates@.len(),
            all == candidate_views(candidates@),
            origin_of(all, id@) == origin_of(all.take(n as int), id@),
        decreases n,
    {
        assert(all.take(n as int).drop_last() =~= all.take(n - 1));
        assert(all.take(n as int).last() == candidates@[n - 1]@);
        if crate::text::same_text(candidates[n - 1].entry.id.as_str(), id) {
            return candidates[n - 1].entry.original_path.clone();
        }
        n = n - 1;
    }
    let r = FilePath::new(String::new(), Vec::new());
    assert(r@.parts =~= Seq::empty());
    r
}

/// What a restore of `candidates` came to, when the platform reported
/// `reports`.
pub fn restore_outcome(
    candidates: &[RestoreCandidate],
    reports: &Vec<(String, RestoreItemOutcome)>,
) -> (r: RestoreOutcome)
    ensures
        results_follow(r.results@, candidate_views(candidates@), reports@),
{
    let mut results: Vec<(FilePath, RestoreItemOutcome)> = Vec::new();
    let mut i: usize = 0;
    while i < reports.len()
        invariant
            i <= reports@.len(),
            results@.len() == i,
            forall|j: int|
                0 <= j < i ==> {
                    &&& (#[trigger] results@[j]).0@ == origin_of(
                        candidate_views(candidates@),
                        reports@[j].0@,
                    )
                    &&& results@[j].1 == reports@[j].1
                },
        decreases reports@.len() - i,
    {
        let path = find_origin(candidates, reports[i].0.as_str());
        results.push((path, reports[i].1.clone()));
        i = i + 1;
    }
    RestoreOutcome { results }
}

/// The ids of the candidates, in their order.
pub fn candidate_ids(candidates: &[RestoreCandidate]) -> (r: Vec<String>)
    ensures
        r@.len() == candidates@.len(),
        forall|i: int| 0 <= i < candidates@.len() ==> (#[trigger] r@[i]) == candidates@[i].entry.id,
{
    let mut r: Vec<String> = Vec::new();
    let mut i: usize = 0;
    while i < candidates.len()
        invariant
            i <= candidates@.len(),
            r@.len() == i,
            forall|j: int| 0 <= j < i ==> (#[trigger] r@[j]) == candidates@[j].entry.id,
        decreases candidates@.len() - i,
    {
        r.push(candidates[i].entry.id.clone());
        i = i + 1;
    }
    r
}

/// The ids of the candidates, in their order.
pub open spec fn ids_of(candidates: Seq<RestoreCandidateView>) -> Seq<Seq<char>> {
    candidates.map_values(|c: RestoreCandidateView| c.entry.id)
}

/// Has the platform restore the candidates. Whatever it reports, every report
/// is kept, with the original path of its item.
pub fn restore<P: Platform + ?Sized>(platform: &P, candidates: &[RestoreCandidate]) -> (r:
    RestoreOutcome)
    ensures
        exists|reports: Seq<(String, RestoreItemOutcome)>| #[trigger]
            results_follow(r.results@, candidate_views(candidates@), reports)
                && platform.may_report(ids_of(candidate_views(candidates@)), reports),
{
    let ids = candidate_ids(candidates);
    assert(texts_of(ids@) =~= ids_of(candidate_views(candidates@)));
    let reports = platform.restore_from_trash(ids.as_slice());
    restore_outcome(candidates, &reports)
}

/// The candidates are the items in the trash with what the log knows of them.
pub open spec fn are_traced(
    trash: Seq<TrashEntryView>,
    log: Seq<AuditRecordView>,
    candidates: Seq<RestoreCandidateView>,
) -> bool {
    &&& candidates.len() == trash.len()
    &&& forall|i: int| 0 <= i < trash.len() ==> is_traced(trash[i], log, #[trigger] candidates[i])
}

/// The items in the trash that the run `run_id` deleted, in the order of the
/// trash.
pub fn run_candidates(trash: &[TrashEntry], audit: &[AuditRecord], run_id: u64) -> (r: Vec<
    RestoreCandidate,
>)
    ensures
        exists|candidates: Seq<RestoreCandidateView>| #[trigger]
            are_traced(trash_views(trash@), record_views(audit@), candidates) && candidate_views(
                r@,
            ) == candidates.filter(of_run(run_id)),
{
    let candidates = correlate(trash, audit);
    let ghost all = candidate_views(candidates@);
    assert(are_traced(trash_views(trash@), record_views(audit@), all)) by {
        assert forall|i: int| 0 <= i < trash@.len() implies is_traced(
            trash_views(trash@)[i],
            record_views(audit@),
            #[trigger] all[i],
        ) by {
            assert(is_traced(trash@[i]@, record_views(audit@), candidates@[i]@));
        }
    }
    let of_this_run = candidates_for_run(&candidates, run_id);
    let ghost wanted = all.filter(of_run(run_id));
    let mut r: Vec<RestoreCandidate> = Vec::new();
    let mut i: usize = 0;
    while i < of_this_run.len()
        invariant
            i <= of_this_run@.len(),
            wanted == of_this_run@.map_values(|x: &RestoreCandidate| x@),
            r@.len() == i,
            forall|j: int| 0 <= j < i ==> (#[trigger] r@[j])@ == wanted[j],
        decreases of_this_run@.len() - i,
    {
        let candidate = of_this_run[i];
        assert(wanted[i as int] == candidate@);
        r.push(candidate.clone());
        i = i + 1;
    }
    assert(candidate_views(r@) =~= wanted);
    r
}

/// Restoring came to one failure, that the trash cannot be listed.
pub open spec fn is_failed_listing(
    results: Seq<(FilePath, RestoreItemOutcome)>,
    message: Seq<char>,
) -> bool {
    &&& results.len() == 1
    &&& results[0].0@ == (FilePathView { text: Seq::empty(), parts: Seq::empty() })
    &&& results[0].1 matches RestoreItemOutcome::Failed { message: m } && m@ == message
}

/// What restoring comes to where the trash cannot be listed: one failure, of no
/// place.
pub fn listing_failed(error: &PlatformError) -> (r: RestoreOutcome)
    ensures
        is_failed_listing(r.results@, error.text()),
{
    let path = FilePath { text: String::new(), parts: Vec::new() };
    assert(path@.text =~= Seq::empty());
    assert(path@.parts =~= Seq::empty());
    let mut results: Vec<(FilePath, RestoreItemOutcome)> = Vec::new();
    results.push((path, RestoreItemOutcome::Failed { message: error.message() }));
    RestoreOutcome { results }
}

/// Restoring the run `run_id` came to `results`, where the platform listed the
/// trash as `listing`, was asked to restore what of it the run had deleted and
/// nothing else, and reported `reports`.
pub open spec fn is_run_restored<P: Platform + ?Sized>(
    platform: &P,
    results: Seq<(FilePath, RestoreItemOutcome)>,
    listing: Result<Vec<TrashEntry>, PlatformError>,
    log: Seq<AuditRecordView>,
    run_id: u64,
    candidates: Seq<RestoreCandidateView>,
    reports: Seq<(String, RestoreItemOutcome)>,
) -> bool {
    &&& platform.may_list(listing)
    &&& match listing {
        Err(e) => is_failed_listing(results, e.text()),
        Ok(trash) => {
            let wanted = candidates.filter(of_run(run_id));
            &&& are_traced(trash_views(trash@), log, candidates)
            &&& platform.may_report(ids_of(wanted), reports)
            &&& results_follow(results, wanted, reports)
        },
    }
}

/// Restores what the run `run_id` deleted and the trash still holds. The
/// platform is asked for nothing else, whatever the trash holds.
pub fn restore_run<P: Platform + ?Sized>(platform: &P, audit: &[AuditRecord], run_id: u64) -> (r:
    RestoreOutcome)
    ensures
        exists|
            listing: Result<Vec<TrashEntry>, PlatformError>,
            candidates: Seq<RestoreCandidateView>,
            reports: Seq<(String, RestoreItemOutcome)>,
        | #[trigger]
            is_run_restored(
                platform,
                r.results@,
                listing,
                record_views(audit@),
                run_id,
                candidates,
                reports,
            ),
{
    let listing = platform.list_trash();
    let ghost given = listing;
    match listing {
        Err(e) => {
            let r = listing_failed(&e);
            assert(is_run_restored(
                platform,
                r.results@,
                given,
                record_views(audit@),
                run_id,
                Seq::empty(),
                Seq::empty(),
            ));
            r
        },
        Ok(trash) => {
            let wanted = run_candidates(&trash, audit, run_id);
            let ghost candidates = choose|candidates: Seq<RestoreCandidateView>| #[trigger]
                are_traced(trash_views(trash@), record_views(audit@), candidates)
                    && candidate_views(wanted@) == candidates.filter(of_run(run_id));
            let r = restore(platform, &wanted);
            let ghost reports = choose|reports: Seq<(String, RestoreItemOutcome)>| #[trigger]
                results_follow(r.results@, candidate_views(wanted@), reports)
                    && platform.may_report(ids_of(candidate_views(wanted@)), reports);
            assert(is_run_restored(
                platform,
                r.results@,
                given,
                record_views(audit@),
                run_id,
                candidates,
                reports,
            ));
            r
        },
    }
}

// ---- What is restored ----

/// The log says that the item was moved to the trash from its place.
pub open spec fn tells_of(record: AuditRecordView, entry: TrashEntryView) -> bool {
    &&& record.path.parts == entry.original_path.parts
    &&& record.action is ToTrash
    &&& record.outcome is Deleted
}

/// An item in the trash is traced to a run if and only if the log says that one
/// moved it there. Where several did, it is the one whose time is nearest to
/// that of the item, the first of these; where the item has no time, it is the
/// latest, the last of these.
pub proof fn items_are_traced_to_their_run(
    entry: TrashEntryView,
    log: Seq<AuditRecordView>,
    candidate: RestoreCandidateView,
) -> (k: int)
    requires
        is_traced(entry, log, candidate),
    ensures
        candidate.entry == entry,
        candidate.run_id is Some == candidate.rule_id is Some,
        candidate.run_id is Some <==> exists|j: int|
            0 <= j < log.len() && tells_of(#[trigger] log[j], entry),
        candidate.run_id is Some ==> {
            &&& 0 <= k < log.len()
            &&& tells_of(log[k], entry)
            &&& candidate.run_id == Some(log[k].run_id)
            &&& candidate.rule_id == Some(log[k].rule_id)
            &&& forall|j: int|
                0 <= j < log.len() && j != k && tells_of(#[trigger] log[j], entry) ==> match entry.deleted_at_secs {
                    Some(at) => {
                        let near = log[k].timestamp_secs - at;
                        let far = log[j].timestamp_secs - at;
                        let a = if near < 0 {
                            -near
                        } else {
                            near
                        };
                        let b = if far < 0 {
                            -far
                        } else {
                            far
                        };
                        a < b || (a == b && k < j)
                    },
                    None => log[j].timestamp_secs < log[k].timestamp_secs || (
                    log[j].timestamp_secs == log[k].timestamp_secs && j < k),
                }
        },
{
    assert forall|j: int| 0 <= j < log.len() implies tells_of(#[trigger] log[j], entry) == is_match(
        entry,
        log[j],
    ) by {}
    if exists|j: int| 0 <= j < log.len() && is_match(entry, #[trigger] log[j]) {
        let j = choose|j: int| 0 <= j < log.len() && is_match(entry, #[trigger] log[j]);
        assert(tells_of(log[j], entry));
        choose|k: int| #[trigger]
            is_best(entry, log, k) && candidate.rule_id == Some(log[k].rule_id)
                && candidate.run_id == Some(log[k].run_id)
    } else {
        0
    }
}

/// To restore a run, all the items that are traced to it are asked for, and no
/// others.
pub proof fn which_items_are_restored(
    candidates: Seq<RestoreCandidateView>,
    run_id: u64,
    k: int,
)
    requires
        0 <= k < candidates.len(),
    ensures
        candidates.filter(of_run(run_id)).contains(candidates[k]) <==> candidates[k].run_id == Some(
            run_id,
        ),
        forall|i: int|
            0 <= i < candidates.filter(of_run(run_id)).len() ==> candidates.contains(
                #[trigger] candidates.filter(of_run(run_id))[i],
            ),
{
    let kept = candidates.filter(of_run(run_id));
    if candidates[k].run_id == Some(run_id) {
        candidates.lemma_filter_contains(of_run(run_id), k);
    }
    if kept.contains(candidates[k]) {
        let i = choose|i: int| 0 <= i < kept.len() && kept[i] == candidates[k];
        candidates.lemma_filter_pred(of_run(run_id), i);
    }
    assert forall|i: int| 0 <= i < kept.len() implies candidates.contains(
        #[trigger] kept[i],
    ) by {
        assert(kept.contains(kept[i]));
        candidates.lemma_filter_contains_rev(of_run(run_id), kept[i]);
    }
}

/// Every report has its result, with the place that the item with its id came
/// from.
pub proof fn results_name_the_places(
    results: Seq<(FilePath, RestoreItemOutcome)>,
    candidates: Seq<RestoreCandidateView>,
    reports: Seq<(String, RestoreItemOutcome)>,
    i: int,
    k: int,
)
    requires
        results_follow(results, candidates, reports),
        0 <= i < reports.len(),
        0 <= k < candidates.len(),
        candidates[k].entry.id == reports[i].0@,
        forall|j: int| k < j < candidates.len() ==> (#[trigger] candidates[j]).entry.id
            != reports[i].0@,
    ensures
        results.len() == reports.len(),
        results[i].0@ == candidates[k].entry.original_path,
        results[i].1 == reports[i].1,
{
    origin_is_that_of_the_last(candidates, reports[i].0@, k);
}

proof fn origin_is_that_of_the_last(candidates: Seq<RestoreCandidateView>, id: Seq<char>, k: int)
    requires
        0 <= k < candidates.len(),
        candidates[k].entry.id == id,
        forall|j: int| k < j < candidates.len() ==> (#[trigger] candidates[j]).entry.id != id,
    ensures
        origin_of(candidates, id) == candidates[k].entry.original_path,
    decreases candidates.len(),
{
    if k < candidates.len() - 1 {
        let front = candidates.drop_last();
        assert(candidates.last() == candidates[candidates.len() - 1]);
        assert forall|j: int| k < j < front.len() implies (#[trigger] front[j]).entry.id != id by {
            assert(front[j] == candidates[j]);
        }
        origin_is_that_of_the_last(front, id, k);
    }
}

/// Each result is counted under what became of its item, and under nothing else.
pub proof fn what_a_restore_counts(
    results: Seq<(FilePath, RestoreItemOutcome)>,
    result: (FilePath, RestoreItemOutcome),
)
    ensures
        ({
            let more = results.push(result);
            let one = |b: bool|
                if b {
                    1nat
                } else {
                    0nat
                };
            &&& total(more, is_restored()) == total(results, is_restored()) + one(
                result.1 is Restored,
            )
            &&& total(more, is_skipped()) == total(results, is_skipped()) + one(
                result.1 is SkippedCollision,
            )
            &&& total(more, is_not_found()) == total(results, is_not_found()) + one(
                result.1 is NotFound,
            )
            &&& total(more, is_failed()) == total(results, is_failed()) + one(result.1 is Failed)
        }),
{
    crate::seqs::total_push(results, result, is_restored());
    crate::seqs::total_push(results, result, is_skipped());
    crate::seqs::total_push(results, result, is_not_found());
    crate::seqs::total_push(results, result, is_failed());
}

} // verus!
