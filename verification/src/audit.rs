//! The deletion log: what was deleted, when and by which run.
//!
//! Unlike the history it records paths, so that a mistake can be traced. The
//! user can switch it off.

use crate::config::Config;
use crate::delete::{
    result_views, DeleteAction, DeleteMethod, DeleteOutcome, DeleteOutcomeView, ItemOutcome,
    ItemOutcomeView, ItemResultView,
};
use crate::path::{file_in_dir, is_file_in, FilePath, FilePathView};
use crate::platform::Platform;
use crate::text::{is_blank, is_blank_text, lines, lines_of};
use vstd::prelude::*;

verus! {

/// One item of one run.
#[derive(Debug, PartialEq, Eq)]
pub struct AuditRecord {
    /// The run.
    pub run_id: u64,
    /// When it ran, in seconds since the epoch.
    pub timestamp_secs: u64,
    /// The id of the rule.
    pub rule_id: String,
    /// What was to be deleted.
    pub path: FilePath,
    /// Its size in bytes when it was planned.
    pub size: u64,
    /// What was to be done to it.
    pub action: DeleteAction,
    /// What became of it.
    pub outcome: ItemOutcome,
    /// How the run deleted.
    pub method: DeleteMethod,
}

/// The value of an [`AuditRecord`].
#[verifier::ext_equal]
pub struct AuditRecordView {
    pub run_id: u64,
    pub timestamp_secs: u64,
    pub rule_id: Seq<char>,
    pub path: FilePathView,
    pub size: u64,
    pub action: DeleteAction,
    pub outcome: ItemOutcomeView,
    pub method: DeleteMethod,
}

impl View for AuditRecord {
    type V = AuditRecordView;

    open spec fn view(&self) -> AuditRecordView {
        AuditRecordView {
            run_id: self.run_id,
            timestamp_secs: self.timestamp_secs,
            rule_id: self.rule_id@,
            path: self.path@,
            size: self.size,
            action: self.action,
            outcome: self.outcome@,
            method: self.method,
        }
    }
}

impl Clone for AuditRecord {
    fn clone(&self) -> (r: AuditRecord)
        ensures
            r@ == self@,
    {
        AuditRecord {
            run_id: self.run_id,
            timestamp_secs: self.timestamp_secs,
            rule_id: self.rule_id.clone(),
            path: self.path.clone(),
            size: self.size,
            action: self.action,
            outcome: self.outcome.clone(),
            method: self.method,
        }
    }
}

/// The values of a list of records.
pub open spec fn record_views(records: Seq<AuditRecord>) -> Seq<AuditRecordView> {
    records.map_values(|r: AuditRecord| r@)
}

/// The size in bytes that the log may have. A log that exceeds it is put aside
/// before more is added.
pub const MAX_LOG_BYTES: u64 = 5_242_880;

/// How many runs of one second are told apart.
pub const RUNS_PER_SECOND: u64 = 1_000_000;

/// A time in seconds, where a time before the epoch counts as the epoch.
pub open spec fn since_epoch(now_secs: i64) -> nat {
    if now_secs < 0 {
        0
    } else {
        now_secs as nat
    }
}

/// The number of a run that starts at `now_secs`, as the one after `counter`
/// others in this process, of which the last had the number `last`: the second
/// with the counter behind it, or the next number where that is not larger than
/// `last`.
pub open spec fn run_id_at(now_secs: i64, counter: u64, last: Option<nat>) -> nat {
    let id = since_epoch(now_secs) * (RUNS_PER_SECOND as nat) + (counter % RUNS_PER_SECOND) as nat;
    match last {
        Some(before) => if id > before {
            id
        } else {
            before + 1
        },
        None => id,
    }
}

/// The number of a run as a mathematical one.
pub open spec fn id_value(id: Option<u64>) -> Option<nat> {
    match id {
        Some(n) => Some(n as nat),
        None => None,
    }
}

/// The number of a run that starts at `now_secs`, as the one after `counter`
/// others in this process, of which the last had the number `last`. It is
/// larger than that, whatever the clock does.
pub fn next_run_id(now_secs: i64, counter: u64, last: Option<u64>) -> (r: u64)
    requires
        since_epoch(now_secs) * (RUNS_PER_SECOND as nat) + (counter % RUNS_PER_SECOND) as nat
            <= u64::MAX,
        last is Some ==> last->0 < u64::MAX,
    ensures
        r == run_id_at(now_secs, counter, id_value(last)),
        last is Some ==> r > last->0,
{
    let secs: u64 = if now_secs < 0 {
        0
    } else {
        now_secs as u64
    };
    let id: u64 = secs * RUNS_PER_SECOND + counter % RUNS_PER_SECOND;
    match last {
        Some(before) => if id > before {
            id
        } else {
            before + 1
        },
        None => id,
    }
}

/// The numbers of the runs of one process, where the run `k` starts at
/// `starts[k]`.
pub open spec fn run_ids(starts: Seq<i64>) -> Seq<nat>
    decreases starts.len(),
{
    if starts.len() == 0 {
        Seq::empty()
    } else {
        let before = run_ids(starts.drop_last());
        before.push(
            run_id_at(
                starts.last(),
                before.len() as u64,
                if before.len() == 0 {
                    None
                } else {
                    Some(before.last())
                },
            ),
        )
    }
}

/// Of any two runs of one process the later one has the larger number, also
/// where both start in the same second.
pub proof fn run_ids_increase(starts: Seq<i64>, a: int, b: int)
    requires
        0 <= a < b < starts.len(),
    ensures
        run_ids(starts).len() == starts.len(),
        run_ids(starts)[a] < run_ids(starts)[b],
    decreases starts.len(),
{
    run_ids_are_complete(starts);
    run_ids_are_complete(starts.drop_last());
    if b < starts.len() - 1 {
        run_ids_increase(starts.drop_last(), a, b);
    } else if a < b - 1 {
        run_ids_increase(starts.drop_last(), a, b - 1);
    }
}

proof fn run_ids_are_complete(starts: Seq<i64>)
    ensures
        run_ids(starts).len() == starts.len(),
    decreases starts.len(),
{
    if starts.len() > 0 {
        run_ids_are_complete(starts.drop_last());
    }
}

/// The record of one result.
pub open spec fn record_of(
    result: ItemResultView,
    run_id: u64,
    now_secs: i64,
    method: DeleteMethod,
) -> AuditRecordView {
    AuditRecordView {
        run_id,
        timestamp_secs: since_epoch(now_secs) as u64,
        rule_id: result.rule_id,
        path: result.path,
        size: result.size,
        action: result.action,
        outcome: result.outcome,
        method,
    }
}

/// The records of a run that came to `outcome`: every result, deleted or not,
/// and none for a dry run.
pub open spec fn records_of(
    outcome: DeleteOutcomeView,
    run_id: u64,
    now_secs: i64,
) -> Seq<AuditRecordView> {
    if outcome.mode.is_dry_run() {
        Seq::empty()
    } else {
        Seq::new(
            outcome.results.len(),
            |i: int| record_of(outcome.results[i], run_id, now_secs, outcome.mode.method),
        )
    }
}

/// The records of a run that came to `outcome`.
pub fn records_from_outcome(outcome: &DeleteOutcome, run_id: u64, now_secs: i64) -> (r: Vec<
    AuditRecord,
>)
    ensures
        record_views(r@) == records_of(outcome@, run_id, now_secs),
{
    let mut r: Vec<AuditRecord> = Vec::new();
    if outcome.is_dry_run() {
        assert(record_views(r@) =~= records_of(outcome@, run_id, now_secs));
        return r;
    }
    let timestamp_secs: u64 = if now_secs < 0 {
        0
    } else {
        now_secs as u64
    };
    let method = outcome.method();
    let ghost all = records_of(outcome@, run_id, now_secs);
    let mut i: usize = 0;
    while i < outcome.results.len()
        invariant
            i <= outcome.results@.len(),
            outcome@.results == result_views(outcome.results@),
            timestamp_secs == since_epoch(now_secs),
            method == outcome@.mode.method,
            !outcome@.mode.is_dry_run(),
            all == records_of(outcome@, run_id, now_secs),
            record_views(r@) == all.take(i as int),
        decreases outcome.results@.len() - i,
    {
        let item = &outcome.results[i];
        let ghost before = r@;
        let record = AuditRecord {
            run_id,
            timestamp_secs,
            rule_id: item.rule_id.clone(),
            path: item.path.clone(),
            size: item.size,
            action: item.action,
            outcome: item.outcome.clone(),
            method,
        };
        r.push(record);
        assert(outcome@.results[i as int] == item@);
        assert(record@ == all[i as int]);
        assert(record_views(r@) =~= record_views(before).push(record@));
        i = i + 1;
        assert(record_views(r@) =~= all.take(i as int));
    }
    assert(all.take(i as int) =~= all);
    r
}

/// The records of the run `run_id`.
pub open spec fn of_run(run_id: u64) -> spec_fn(AuditRecordView) -> bool {
    |r: AuditRecordView| r.run_id == run_id
}

/// The records of the run `run_id`, in their order.
pub fn filter_by_run(records: &[AuditRecord], run_id: u64) -> (r: Vec<&AuditRecord>)
    ensures
        r@.map_values(|x: &AuditRecord| x@) == record_views(records@).filter(of_run(run_id)),
{
    let ghost all = record_views(records@);
    let ghost keep = of_run(run_id);
    let mut r: Vec<&AuditRecord> = Vec::new();
    let mut i: usize = 0;
    assert(r@.map_values(|x: &AuditRecord| x@) =~= all.take(0).filter(keep)) by {
        reveal(Seq::filter);
    }
    while i < records.len()
        invariant
            i <= records@.len(),
            all == record_views(records@),
            keep == of_run(run_id),
            r@.map_values(|x: &AuditRecord| x@) == all.take(i as int).filter(keep),
        decreases records@.len() - i,
    {
        let record = &records[i];
        let ghost before = r@;
        proof {
            assert(all.take(i + 1) =~= all.take(i as int).push(record@));
            all.take(i as int).lemma_filter_push(record@, keep);
        }
        if record.run_id == run_id {
            r.push(record);
            assert(r@.map_values(|x: &AuditRecord| x@) =~= before.map_values(
                |x: &AuditRecord| x@,
            ).push(record@));
        }
        i = i + 1;
    }
    assert(all.take(i as int) =~= all);
    r
}

/// Where the log is kept: `deletion_log.jsonl` in the platform's settings
/// directory, where there is one.
pub fn audit_file_path<P: Platform + ?Sized>(platform: &P) -> (r: Option<FilePath>)
    ensures
        r is Some == platform.settings_dir() is Some,
        r is Some ==> is_file_in(r->0@, platform.settings_dir()->0, "deletion_log.jsonl"@),
{
    file_in_dir(platform.config_dir(), "deletion_log.jsonl")
}

/// Where the log is put aside: `deletion_log.1.jsonl` beside it. An older one
/// there is replaced.
pub fn backup_file_path<P: Platform + ?Sized>(platform: &P) -> (r: Option<FilePath>)
    ensures
        r is Some == platform.settings_dir() is Some,
        r is Some ==> is_file_in(r->0@, platform.settings_dir()->0, "deletion_log.1.jsonl"@),
{
    file_in_dir(platform.config_dir(), "deletion_log.1.jsonl")
}

/// Whether the log is put aside before more is added: it exists, with `len`
/// bytes, and exceeds [`MAX_LOG_BYTES`].
pub fn rotate_if_needed(len: Option<u64>) -> (r: bool)
    ensures
        r == (len is Some && len->0 > MAX_LOG_BYTES),
{
    match len {
        Some(n) => n > MAX_LOG_BYTES,
        None => false,
    }
}

/// A line that may hold a record.
pub open spec fn not_blank() -> spec_fn(Seq<char>) -> bool {
    |line: Seq<char>| !is_blank_text(line)
}

/// The lines of a log that may hold a record, in their order.
pub fn log_lines(contents: &str) -> (r: Vec<String>)
    ensures
        r@.map_values(|l: String| l@) == lines_of(contents@).filter(not_blank()),
{
    let found = lines(contents);
    let ghost all = found@.map_values(|l: String| l@);
    let mut r: Vec<String> = Vec::new();
    let mut i: usize = 0;
    assert(r@.map_values(|l: String| l@) =~= all.take(0).filter(not_blank())) by {
        reveal(Seq::filter);
    }
    while i < found.len()
        invariant
            i <= found@.len(),
            all == found@.map_values(|l: String| l@),
            all == lines_of(contents@),
            r@.map_values(|l: String| l@) == all.take(i as int).filter(not_blank()),
        decreases found@.len() - i,
    {
        let line = &found[i];
        let ghost before = r@;
        proof {
            assert(all.take(i + 1) =~= all.take(i as int).push(line@));
            all.take(i as int).lemma_filter_push(line@, not_blank());
        }
        if !is_blank(line.as_str()) {
            let copy = line.clone();
            r.push(copy);
            assert(r@.map_values(|l: String| l@) =~= before.map_values(|l: String| l@).push(
                line@,
            ));
        }
        i = i + 1;
    }
    assert(all.take(i as int) =~= all);
    r
}

/// What to do about the log after a run.
#[derive(Debug)]
pub enum AuditStep {
    /// The user has switched the log off.
    Disabled,
    /// There is no place to keep it.
    NoPlace,
    /// Add `records` to the log at `path`.
    Append {
        /// Where the log is.
        path: FilePath,
        /// What to add.
        records: Vec<AuditRecord>,
    },
}

/// What to do about the log after a run that came to `outcome`.
pub fn record_outcome<P: Platform + ?Sized>(
    platform: &P,
    config: &Config,
    outcome: &DeleteOutcome,
    run_id: u64,
    now_secs: i64,
) -> (r: AuditStep)
    ensures
        match r {
            AuditStep::Disabled => !config.audit_log_enabled,
            AuditStep::NoPlace => config.audit_log_enabled && platform.settings_dir() is None,
            AuditStep::Append { path, records } => {
                &&& config.audit_log_enabled
                &&& platform.settings_dir() is Some
                &&& is_file_in(path@, platform.settings_dir()->0, "deletion_log.jsonl"@)
                &&& record_views(records@) == records_of(outcome@, run_id, now_secs)
            },
        },
{
    if !config.audit_log_enabled {
        return AuditStep::Disabled;
    }
    match audit_file_path(platform) {
        None => AuditStep::NoPlace,
        Some(path) => AuditStep::Append {
            path,
            records: records_from_outcome(outcome, run_id, now_secs),
        },
    }
}

/// A dry run leaves no trace in the log.
pub proof fn dry_runs_are_not_logged(outcome: DeleteOutcomeView, run_id: u64, now_secs: i64)
    requires
        outcome.mode.is_dry_run(),
    ensures
        records_of(outcome, run_id, now_secs).len() == 0,
{
}

/// Every record of a run bears its number, so that filtering by it gives the
/// whole run back.
pub proof fn a_run_is_found_by_its_number(outcome: DeleteOutcomeView, run_id: u64, now_secs: i64)
    ensures
        records_of(outcome, run_id, now_secs).filter(of_run(run_id)) == records_of(
            outcome,
            run_id,
            now_secs,
        ),
{
    crate::seqs::filter_keeps_all(records_of(outcome, run_id, now_secs), of_run(run_id));
}

// ---- What is logged ----

/// Each result of a run that was no dry run is logged, deleted or not, in its
/// place, with what became of it, the number of the run, its time and the way of
/// deletion.
pub proof fn every_result_is_logged(
    outcome: DeleteOutcomeView,
    run_id: u64,
    now_secs: i64,
    i: int,
)
    requires
        outcome.mode.dry_run_reason is None,
        0 <= i < outcome.results.len(),
    ensures
        ({
            let records = records_of(outcome, run_id, now_secs);
            let result = outcome.results[i];
            &&& records.len() == outcome.results.len()
            &&& records[i].run_id == run_id
            &&& now_secs >= 0 ==> records[i].timestamp_secs == now_secs
            &&& now_secs < 0 ==> records[i].timestamp_secs == 0
            &&& records[i].rule_id == result.rule_id
            &&& records[i].path == result.path
            &&& records[i].size == result.size
            &&& records[i].action == result.action
            &&& records[i].outcome == result.outcome
            &&& records[i].method == outcome.mode.method
        }),
{
}

/// Filtering by a run keeps its records, all of them, and no others.
pub proof fn filtering_keeps_the_run(records: Seq<AuditRecordView>, run_id: u64, k: int)
    requires
        0 <= k < records.len(),
    ensures
        records.filter(of_run(run_id)).contains(records[k]) <==> records[k].run_id == run_id,
        forall|i: int|
            0 <= i < records.filter(of_run(run_id)).len() ==> (#[trigger] records.filter(
                of_run(run_id),
            )[i]).run_id == run_id,
{
    let kept = records.filter(of_run(run_id));
    assert forall|i: int| 0 <= i < kept.len() implies (#[trigger] kept[i]).run_id == run_id by {
        records.lemma_filter_pred(of_run(run_id), i);
    }
    if records[k].run_id == run_id {
        records.lemma_filter_contains(of_run(run_id), k);
    }
}

/// The first run of a process that starts after the epoch has the second in
/// which it starts and six digits for the counter behind it. A later one never
/// has a smaller number than that.
pub proof fn run_ids_tell_the_second(now_secs: i64, counter: u64, last: Option<nat>)
    requires
        now_secs >= 0,
        counter < 1_000_000,
    ensures
        run_id_at(now_secs, counter, None) / 1_000_000 == now_secs,
        run_id_at(now_secs, counter, None) % 1_000_000 == counter,
        run_id_at(now_secs, counter, last) >= run_id_at(now_secs, counter, None),
        last is Some ==> run_id_at(now_secs, counter, last) > last->0,
        last is Some && last->0 < now_secs * 1_000_000 + counter ==> run_id_at(
            now_secs,
            counter,
            last,
        ) == now_secs * 1_000_000 + counter,
        last is Some && last->0 >= now_secs * 1_000_000 + counter ==> run_id_at(
            now_secs,
            counter,
            last,
        ) == last->0 + 1,
{
}

/// A line of a log is looked at if and only if it holds more than white space.
pub proof fn which_lines_of_a_log_count(all: Seq<Seq<char>>, k: int)
    requires
        0 <= k < all.len(),
    ensures
        all.filter(not_blank()).contains(all[k]) <==> exists|i: int|
            0 <= i < all[k].len() && !crate::text::is_space(#[trigger] all[k][i]),
{
    if !is_blank_text(all[k]) {
        all.lemma_filter_contains(not_blank(), k);
    }
    if all.filter(not_blank()).contains(all[k]) {
        all.lemma_filter_contains_rev(not_blank(), all[k]);
        let kept = all.filter(not_blank());
        let i = choose|i: int| 0 <= i < kept.len() && kept[i] == all[k];
        all.lemma_filter_pred(not_blank(), i);
    }
}

} // verus!
