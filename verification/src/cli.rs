//! The command line: what a command does, and what it prints.
//!
//! Reading arguments, asking the user and printing stand outside. What is
//! decided, and the lines that are printed, stand here.

use crate::audit::{record_views, AuditRecord, AuditRecordView};
use crate::breakdown::{
    are_categories, by_rule, category_views, from_plan, in_shown_order,
    plan_breakdown_covers_the_plan, planned_item, CategoryBreakdown, CategoryView,
};
use crate::config::Config;
use crate::delete::{
    item_views, mode_for, plan_for, preview, result_views, DeleteMethod, DeleteMode, DeleteOutcome,
    DeleteOutcomeView, DeletePlan, DeletePlanView, DeleteRequest, ItemOutcome, ItemOutcomeView,
    ItemResultView, RequestKind,
};
use crate::entry::{entry_views, ScanEntry, ScanEntryView};
use crate::export::{is_selected, selected_size};
use crate::format::{human_size, size_text};
use crate::history::{last_of, History};
use crate::i18n::Lang;
use crate::platform::{should_relaunch, ElevateError, ElevateResult, Platform};
use crate::rule::{rule_views, Rule};
use crate::ruleset::{issue_views, IssueView, RuleSetIssue};
use crate::seqs::{total, total_take};
use crate::text::{
    copy_texts, decimal, lowercase, pad_left, pad_right, padded_left, padded_right, push_decimal,
    same_text, texts_of, to_lowercase, trim, trimmed,
};
use crate::view::{outcome_text, outcome_words};
use vstd::prelude::*;

verus! {

// ---- Commands ----

/// How results are printed.
#[derive(Debug, Clone, Copy, PartialEq, Eq, Structural)]
pub enum OutputFormat {
    /// For reading.
    Text,
    /// As a JSON document.
    Json,
    /// As comma-separated values.
    Csv,
}

/// What `scan` was told.
#[derive(Debug, PartialEq, Eq)]
pub struct ScopeArgs {
    /// Scan everything, not only what is safe.
    pub all: bool,
    /// Include what needs administrator rights.
    pub admin: bool,
    /// How to print.
    pub format: OutputFormat,
    /// The file to write to.
    pub output: Option<String>,
}

/// What `clean` was told.
#[derive(Debug, PartialEq, Eq)]
pub struct CleanArgs {
    /// Take everything, not only what is safe.
    pub all: bool,
    /// Delete nothing.
    pub dry_run: bool,
    /// Delete for good.
    pub permanent: bool,
    /// Do not ask before deleting for good.
    pub yes: bool,
    /// Include what needs administrator rights.
    pub admin: bool,
    /// How to print.
    pub format: OutputFormat,
    /// The file to write to.
    pub output: Option<String>,
}

/// What `log` was told.
#[derive(Debug, Clone, Copy, PartialEq, Eq, Structural)]
pub struct LogArgs {
    /// How many records to print at most.
    pub limit: usize,
    /// The run to print, or all of them.
    pub run: Option<u64>,
}

/// A command.
#[derive(Debug, PartialEq, Eq)]
pub enum Command {
    /// List what could be deleted.
    Scan(ScopeArgs),
    /// Delete.
    Clean(CleanArgs),
    /// List what was deleted.
    Log(LogArgs),
}

impl Command {
    /// Administrator rights are asked for.
    pub open spec fn wants_admin(self) -> bool {
        match self {
            Command::Scan(args) => args.admin,
            Command::Clean(args) => args.admin,
            Command::Log(_) => false,
        }
    }

    /// Whether administrator rights are asked for.
    pub fn admin_requested(&self) -> (r: bool)
        ensures
            r == self.wants_admin(),
    {
        match self {
            Command::Scan(args) => args.admin,
            Command::Clean(args) => args.admin,
            Command::Log(_) => false,
        }
    }
}

/// What to do first.
#[derive(Debug, Clone, Copy, PartialEq, Eq, Structural)]
pub enum Startup {
    /// Start again with administrator rights.
    Relaunch,
    /// Run, and say that the rights that were asked for did not arrive.
    RunWithoutRights,
    /// Run.
    Run,
}

/// What to do first, where the process has administrator rights or not, and was
/// started again for them or not.
pub open spec fn first_step(command: Command, elevated: bool, relaunched: bool) -> Startup {
    if command.wants_admin() && !elevated {
        if relaunched {
            Startup::RunWithoutRights
        } else {
            Startup::Relaunch
        }
    } else {
        Startup::Run
    }
}

/// What to do first.
pub fn startup(command: &Command, elevated: bool, relaunched: bool) -> (r: Startup)
    ensures
        r == first_step(*command, elevated, relaunched),
{
    let admin = command.admin_requested();
    if should_relaunch(admin, elevated, relaunched) {
        Startup::Relaunch
    } else if admin && relaunched && !elevated {
        Startup::RunWithoutRights
    } else {
        Startup::Run
    }
}

/// A process that was started again for administrator rights is never started
/// again once more.
pub proof fn relaunches_at_most_once(command: Command, elevated: bool)
    ensures
        first_step(command, elevated, true) != Startup::Relaunch,
{
}

/// The arguments of a process that is started again as administrator: those of
/// this process, and a mark.
pub fn relaunch_args(argv_rest: &[String]) -> (r: Vec<String>)
    ensures
        texts_of(r@) == texts_of(argv_rest@).push("--elevated"@),
{
    let mut args = copy_texts(argv_rest);
    let ghost before = args@;
    args.push("--elevated".to_owned());
    assert(texts_of(args@) =~= texts_of(before).push("--elevated"@));
    args
}

/// Lines to print, and the exit code.
#[derive(Debug, PartialEq, Eq)]
pub struct Report {
    /// The lines for the standard output.
    pub out: Vec<String>,
    /// The lines for the standard error.
    pub err: Vec<String>,
    /// The exit code.
    pub code: u8,
}

/// The value of a [`Report`].
#[verifier::ext_equal]
pub struct ReportView {
    pub out: Seq<Seq<char>>,
    pub err: Seq<Seq<char>>,
    pub code: u8,
}

impl View for Report {
    type V = ReportView;

    open spec fn view(&self) -> ReportView {
        ReportView { out: texts_of(self.out@), err: texts_of(self.err@), code: self.code }
    }
}

/// The exit code of a command that did what it was told.
pub const EXIT_SUCCESS: u8 = 0;

/// The exit code of a command that failed, or of which an item failed.
pub const EXIT_FAILURE: u8 = 1;

/// The exit code where the user declined administrator rights.
pub const EXIT_DECLINED: u8 = 2;

/// What is said once the process was to be started again as administrator.
pub open spec fn elevation(result: ElevateResult) -> ReportView {
    match result {
        Ok(_) => ReportView {
            out: seq![
                "管理者権限で開き直しました。このウィンドウは終了します。"@,
                "結果は新しいウィンドウに表示されますが、完了と同時に閉じます。"@,
                "出力を確認したい場合は、管理者としてターミナルを開いてから pc-cleaner を実行してください（この場合 --admin は不要です）。"@,
            ],
            err: Seq::empty(),
            code: EXIT_SUCCESS,
        },
        Err(ElevateError::Cancelled) => ReportView {
            out: Seq::empty(),
            err: seq![
                "管理者権限での実行はキャンセルされました。"@,
                "--admin を外せば、管理者権限が不要な領域だけを対象に実行できます。"@,
            ],
            code: EXIT_DECLINED,
        },
        Err(e) => ReportView {
            out: Seq::empty(),
            err: seq!["管理者権限で実行し直せませんでした: "@ + e.text()],
            code: EXIT_FAILURE,
        },
    }
}

/// What is said once the process was to be started again as administrator.
pub fn elevation_report(result: &ElevateResult) -> (r: Report)
    ensures
        r@ == elevation(*result),
{
    let mut out: Vec<String> = Vec::new();
    let mut err: Vec<String> = Vec::new();
    let code: u8 = match result {
        Ok(_) => {
            out.push("管理者権限で開き直しました。このウィンドウは終了します。".to_owned());
            out.push("結果は新しいウィンドウに表示されますが、完了と同時に閉じます。".to_owned());
            out.push(
                "出力を確認したい場合は、管理者としてターミナルを開いてから pc-cleaner を実行してください（この場合 --admin は不要です）。".to_owned(),
            );
            EXIT_SUCCESS
        },
        Err(ElevateError::Cancelled) => {
            err.push("管理者権限での実行はキャンセルされました。".to_owned());
            err.push("--admin を外せば、管理者権限が不要な領域だけを対象に実行できます。".to_owned());
            EXIT_DECLINED
        },
        Err(e) => {
            err.push("管理者権限で実行し直せませんでした: ".to_owned().concat(e.message().as_str()));
            EXIT_FAILURE
        },
    };
    assert(texts_of(out@) =~= elevation(*result).out);
    assert(texts_of(err@) =~= elevation(*result).err);
    Report { out, err, code }
}

/// The warnings on a rule file.
pub open spec fn issue_warning() -> spec_fn(IssueView) -> Seq<char> {
    |i: IssueView| "警告: "@ + i.message
}

/// The warnings on a rule file.
pub fn rule_warnings(issues: &[RuleSetIssue]) -> (r: Vec<String>)
    ensures
        texts_of(r@) == issue_views(issues@).map_values(issue_warning()),
{
    let ghost f = issue_warning();
    let mut r: Vec<String> = Vec::new();
    let mut i: usize = 0;
    while i < issues.len()
        invariant
            i <= issues@.len(),
            f == issue_warning(),
            r@.len() == i,
            forall|j: int| 0 <= j < i ==> (#[trigger] r@[j])@ == f(issues@[j]@),
        decreases issues@.len() - i,
    {
        r.push("警告: ".to_owned().concat(issues[i].message.as_str()));
        i = i + 1;
    }
    assert(texts_of(r@) =~= issue_views(issues@).map_values(f));
    r
}

// ---- Deleting ----

/// The request that the first preview of `clean` makes. Deletion for good is
/// not confirmed yet.
pub open spec fn first_kind(dry_run: bool, permanent: bool) -> RequestKind {
    if permanent {
        RequestKind::PermanentUnconfirmed
    } else if dry_run {
        RequestKind::DryRun
    } else {
        RequestKind::Execute
    }
}

/// The request that the first preview makes.
pub fn first_request(dry_run: bool, permanent: bool) -> (r: DeleteRequest)
    ensures
        r@ == first_kind(dry_run, permanent),
{
    if permanent {
        DeleteRequest::permanent_unconfirmed()
    } else if dry_run {
        DeleteRequest::dry_run()
    } else {
        DeleteRequest::execute()
    }
}

/// How the user's consent to deletion for good is come by.
#[derive(Debug, Clone, Copy, PartialEq, Eq, Structural)]
pub enum Consent {
    /// None is needed.
    NotNeeded,
    /// It was given with the command.
    Given,
    /// The user has to be asked.
    Ask,
    /// It cannot be asked for, since what is printed is for machines.
    CannotAsk,
}

/// How consent is come by, where the first preview has `count` items.
pub open spec fn consent_for(args: CleanArgs, count: nat) -> Consent {
    if !args.permanent || args.dry_run || count == 0 {
        Consent::NotNeeded
    } else if args.yes {
        Consent::Given
    } else if args.format == OutputFormat::Text {
        Consent::Ask
    } else {
        Consent::CannotAsk
    }
}

/// How consent is come by.
pub fn consent(args: &CleanArgs, plan: &DeletePlan) -> (r: Consent)
    ensures
        r == consent_for(*args, plan@.items.len()),
{
    if !args.permanent || args.dry_run || plan.is_empty() {
        Consent::NotNeeded
    } else if args.yes {
        Consent::Given
    } else if args.format == OutputFormat::Text {
        Consent::Ask
    } else {
        Consent::CannotAsk
    }
}

/// The user agreed to deletion for good. `answer` is what the user said, where
/// they were asked.
pub open spec fn is_agreed(consent: Consent, answer: bool) -> bool {
    consent == Consent::Given || (consent == Consent::Ask && answer)
}

/// The request that the plan of `clean` comes from.
pub open spec fn final_kind(args: CleanArgs, count: nat, answer: bool) -> RequestKind {
    if is_agreed(consent_for(args, count), answer) {
        RequestKind::PermanentConfirmed
    } else {
        first_kind(args.dry_run, args.permanent)
    }
}

/// The first preview of `clean`.
pub fn first_plan<P: Platform + ?Sized>(
    platform: &P,
    config: &Config,
    entries: &[ScanEntry],
    rules: &[Rule],
    args: &CleanArgs,
) -> (r: DeletePlan)
    ensures
        r@ == plan_for(
            platform,
            entry_views(entries@),
            rule_views(rules@),
            mode_for(*config, first_kind(args.dry_run, args.permanent)),
        ),
{
    let mode = DeleteMode::resolve(config, first_request(args.dry_run, args.permanent));
    preview(platform, entries, rules, mode)
}

/// The plan that `clean` executes: the first preview, or, where the user agreed
/// to deletion for good, one made for that.
pub fn final_plan<P: Platform + ?Sized>(
    platform: &P,
    config: &Config,
    entries: &[ScanEntry],
    rules: &[Rule],
    args: &CleanArgs,
    plan: DeletePlan,
    answer: bool,
) -> (r: DeletePlan)
    ensures
        is_agreed(consent_for(*args, plan@.items.len()), answer) ==> r@ == plan_for(
            platform,
            entry_views(entries@),
            rule_views(rules@),
            mode_for(*config, RequestKind::PermanentConfirmed),
        ),
        !is_agreed(consent_for(*args, plan@.items.len()), answer) ==> r@ == plan@,
{
    let agreed = match consent(args, &plan) {
        Consent::Given => true,
        Consent::Ask => answer,
        _ => false,
    };
    if agreed {
        let mode = DeleteMode::resolve(config, DeleteRequest::permanent_confirmed());
        preview(platform, entries, rules, mode)
    } else {
        plan
    }
}

/// `clean` deletes for good only where that was asked for without a dry run,
/// and the user agreed: with the command, or when asked.
pub proof fn permanent_needs_consent(config: Config, args: CleanArgs, count: nat, answer: bool)
    requires
        !mode_for(config, final_kind(args, count, answer)).is_dry_run(),
        mode_for(config, final_kind(args, count, answer)).method == DeleteMethod::Permanent,
    ensures
        args.permanent,
        !args.dry_run,
        args.yes || (args.format == OutputFormat::Text && answer),
{
}

/// `clean` with a dry run deletes nothing, whatever else it was told.
pub proof fn dry_runs_stay_dry(config: Config, args: CleanArgs, count: nat, answer: bool)
    requires
        args.dry_run,
    ensures
        mode_for(config, final_kind(args, count, answer)).is_dry_run(),
{
}

/// The form of what is printed does not change what is deleted, but that no
/// question can be asked where it is for machines: this holds wherever none has
/// to be asked.
pub proof fn format_does_not_change_what_is_deleted(
    args: CleanArgs,
    format: OutputFormat,
    output: Option<String>,
    count: nat,
    answer: bool,
)
    requires
        consent_for(args, count) == Consent::NotNeeded || consent_for(args, count)
            == Consent::Given,
    ensures
        final_kind(CleanArgs { format, output, ..args }, count, answer) == final_kind(
            args,
            count,
            answer,
        ),
{
}

/// What has happened to a `clean` command.
#[derive(Debug, Clone, Copy, PartialEq, Eq, Structural)]
pub enum CleanEvent {
    /// The first preview was made, and consent is come by in this way.
    Planned(Consent),
    /// The user was asked, and gave this answer.
    Answered(bool),
    /// The plan to execute was made.
    Chosen,
    /// The plan was written out, with this exit code.
    Exported(u8),
    /// The plan was executed.
    Deleted {
        /// Nothing was to be deleted.
        is_dry_run: bool,
        /// The exit code that it comes to.
        code: u8,
    },
    /// The run was recorded.
    Recorded {
        /// The exit code that it comes to.
        code: u8,
    },
}

/// What a `clean` command does next.
#[derive(Debug, Clone, Copy, PartialEq, Eq, Structural)]
pub enum CleanAction {
    /// Ask the user.
    Ask,
    /// Make the plan to execute, with this answer.
    Choose(bool),
    /// Write the plan out.
    Export,
    /// Execute the plan.
    Delete,
    /// Record the run.
    Record,
    /// Exit with this code.
    Exit(u8),
}

/// What a `clean` command does after `event`: what is for machines is written
/// out before anything is deleted, and not deleted where that fails; only what
/// was no dry run is recorded.
pub open spec fn next_action(args: CleanArgs, event: CleanEvent) -> CleanAction {
    match event {
        CleanEvent::Planned(consent) => if consent == Consent::Ask {
            CleanAction::Ask
        } else {
            CleanAction::Choose(false)
        },
        CleanEvent::Answered(answer) => CleanAction::Choose(answer),
        CleanEvent::Chosen => if args.format == OutputFormat::Text {
            CleanAction::Delete
        } else {
            CleanAction::Export
        },
        CleanEvent::Exported(code) => if code == EXIT_SUCCESS {
            CleanAction::Delete
        } else {
            CleanAction::Exit(code)
        },
        CleanEvent::Deleted { is_dry_run, code } => if is_dry_run {
            CleanAction::Exit(code)
        } else {
            CleanAction::Record
        },
        CleanEvent::Recorded { code } => CleanAction::Exit(code),
    }
}

/// What a `clean` command does after `event`.
pub fn clean_step(args: &CleanArgs, event: CleanEvent) -> (r: CleanAction)
    ensures
        r == next_action(*args, event),
{
    match event {
        CleanEvent::Planned(consent) => {
            if consent == Consent::Ask {
                CleanAction::Ask
            } else {
                CleanAction::Choose(false)
            }
        },
        CleanEvent::Answered(answer) => CleanAction::Choose(answer),
        CleanEvent::Chosen => {
            if args.format == OutputFormat::Text {
                CleanAction::Delete
            } else {
                CleanAction::Export
            }
        },
        CleanEvent::Exported(code) => {
            if code == EXIT_SUCCESS {
                CleanAction::Delete
            } else {
                CleanAction::Exit(code)
            }
        },
        CleanEvent::Deleted { is_dry_run, code } => {
            if is_dry_run {
                CleanAction::Exit(code)
            } else {
                CleanAction::Record
            }
        },
        CleanEvent::Recorded { code } => CleanAction::Exit(code),
    }
}

/// Nothing is deleted before the plan is there, and nothing at all where it
/// could not be written out; and what was only previewed is not recorded.
pub proof fn a_run_is_deleted_and_recorded_in_its_turn(args: CleanArgs, event: CleanEvent)
    ensures
        next_action(args, event) == CleanAction::Delete ==> event == CleanEvent::Chosen || event
            == CleanEvent::Exported(EXIT_SUCCESS),
        next_action(args, event) == CleanAction::Delete && event == CleanEvent::Chosen
            ==> args.format == OutputFormat::Text,
        next_action(args, event) == CleanAction::Record ==> event is Deleted
            && !event->is_dry_run,
{
}

/// What is said where the user did not agree to deletion for good.
pub open spec fn refusal(consent: Consent, answer: bool) -> ReportView {
    let out = if consent == Consent::Ask && !answer {
        seq!["キャンセルしました。"@]
    } else {
        Seq::empty()
    };
    let err = if consent == Consent::CannotAsk {
        seq![
            "--permanent は --format text 以外では --yes と併用してください（対話確認は省略されました）。"@,
        ]
    } else {
        Seq::empty()
    };
    ReportView { out, err, code: EXIT_SUCCESS }
}

/// What is said where the user did not agree to deletion for good.
pub fn refusal_report(consent: Consent, answer: bool) -> (r: Report)
    ensures
        r@ == refusal(consent, answer),
{
    let mut out: Vec<String> = Vec::new();
    let mut err: Vec<String> = Vec::new();
    if consent == Consent::Ask && !answer {
        out.push("キャンセルしました。".to_owned());
    }
    if consent == Consent::CannotAsk {
        err.push(
            "--permanent は --format text 以外では --yes と併用してください（対話確認は省略されました）。".to_owned(),
        );
    }
    assert(texts_of(out@) =~= refusal(consent, answer).out);
    assert(texts_of(err@) =~= refusal(consent, answer).err);
    Report { out, err, code: EXIT_SUCCESS }
}

/// The word means yes.
pub open spec fn means_yes(word: Seq<char>) -> bool {
    word == "y"@ || word == "yes"@
}

/// Whether a word in lower case means yes.
pub fn is_yes(word: &str) -> (r: bool)
    ensures
        r == means_yes(word@),
{
    same_text(word, "y") || same_text(word, "yes")
}

/// Whether an answer means yes. Case does not matter, nor does white space
/// around it.
pub fn is_affirmative(input: &str) -> (r: bool)
    ensures
        r == means_yes(lowercase(trimmed(input@))),
{
    let word = trim(input);
    is_yes(to_lowercase(word.as_str()).as_str())
}

/// The question before deleting for good.
pub open spec fn question(item_count: nat, total_size: nat) -> Seq<char> {
    decimal(item_count) + " 件（"@ + size_text(total_size)
        + "）を完全に削除します。ゴミ箱を経由せず復元できません。続行しますか？ [y/N]: "@
}

/// The question before deleting for good.
pub fn confirm_question(item_count: usize, total_size: u64) -> (r: String)
    ensures
        r@ == question(item_count as nat, total_size as nat),
{
    let mut r = String::new();
    push_decimal(&mut r, item_count as u64);
    r.append(" 件（");
    r.append(human_size(total_size).as_str());
    r.append("）を完全に削除します。ゴミ箱を経由せず復元できません。続行しますか？ [y/N]: ");
    assert(r@ =~= question(item_count as nat, total_size as nat));
    r
}

/// The exit code of `clean`: a failure where an item failed.
pub fn exit_code(outcome: &DeleteOutcome) -> (r: u8)
    ensures
        r == if outcome@.failed() > 0 {
            EXIT_FAILURE
        } else {
            EXIT_SUCCESS
        },
{
    if outcome.failed_count() > 0 {
        EXIT_FAILURE
    } else {
        EXIT_SUCCESS
    }
}

// ---- What is printed ----

/// The age of an entry.
pub open spec fn age_column(age_days: Option<u64>) -> Seq<char> {
    match age_days {
        Some(d) => decimal(d as nat) + "日"@,
        None => "不明"@,
    }
}

fn age_cell(age_days: Option<u64>) -> (r: String)
    ensures
        r@ == age_column(age_days),
{
    match age_days {
        Some(d) => {
            let mut r = String::new();
            push_decimal(&mut r, d);
            r.append("日");
            assert(r@ =~= age_column(age_days));
            r
        },
        None => "不明".to_owned(),
    }
}

/// The line of an entry.
pub open spec fn entry_line(e: ScanEntryView) -> Seq<char> {
    let mark = if e.selected {
        "[x] "@
    } else {
        "[ ] "@
    };
    let recommended = if e.recommended {
        "推奨"@
    } else {
        "-"@
    };
    mark + padded_right(e.rule_id, 16) + " "@ + padded_left(size_text(e.size as nat), 10)
        + "  経過:"@ + padded_right(age_column(e.age_days), 5) + " "@ + padded_right(recommended, 4)
        + " "@ + e.path.text
}

/// The lines of an entry: itself, and why where that is known.
pub open spec fn entry_lines(e: ScanEntryView) -> Seq<Seq<char>> {
    if e.reason.len() == 0 {
        seq![entry_line(e)]
    } else {
        seq![entry_line(e), "      理由: "@ + e.reason]
    }
}

/// The lines of all entries.
pub open spec fn entries_lines(entries: Seq<ScanEntryView>) -> Seq<Seq<char>>
    decreases entries.len(),
{
    if entries.len() == 0 {
        Seq::empty()
    } else {
        entries_lines(entries.drop_last()) + entry_lines(entries.last())
    }
}

/// The lines that `scan` prints.
pub open spec fn scan_lines(entries: Seq<ScanEntryView>) -> Seq<Seq<char>> {
    if entries.len() == 0 {
        seq!["対象なし。"@]
    } else {
        entries_lines(entries) + seq![
            ""@,
            decimal(entries.len()) + " 件中 "@ + decimal(total(entries, is_selected()))
                + " 件を選択中（解放見込み: "@ + size_text(total(entries, selected_size())) + "）"@,
        ]
    }
}

fn entry_text(e: &ScanEntry) -> (r: String)
    ensures
        r@ == entry_line(e@),
{
    let mut r = if e.selected {
        "[x] ".to_owned()
    } else {
        "[ ] ".to_owned()
    };
    r.append(pad_right(e.rule_id.as_str(), 16).as_str());
    r.append(" ");
    r.append(pad_left(human_size(e.size).as_str(), 10).as_str());
    r.append("  経過:");
    r.append(pad_right(age_cell(e.age_days).as_str(), 5).as_str());
    r.append(" ");
    if e.recommended {
        r.append(pad_right("推奨", 4).as_str());
    } else {
        r.append(pad_right("-", 4).as_str());
    }
    r.append(" ");
    r.append(e.path.text.as_str());
    r
}

/// The lines that `scan` prints: each entry with its rule, size, age,
/// recommendation and path, and what is selected altogether.
pub fn scan_report(entries: &[ScanEntry]) -> (r: Vec<String>)
    requires
        total(entry_views(entries@), selected_size()) <= u64::MAX,
    ensures
        texts_of(r@) == scan_lines(entry_views(entries@)),
{
    let ghost all = entry_views(entries@);
    let mut r: Vec<String> = Vec::new();
    if entries.len() == 0 {
        r.push("対象なし。".to_owned());
        assert(texts_of(r@) =~= scan_lines(all));
        return r;
    }
    let mut count: usize = 0;
    let mut size: u64 = 0;
    let mut i: usize = 0;
    assert(texts_of(r@) =~= entries_lines(all.take(0)));
    while i < entries.len()
        invariant
            i <= entries@.len(),
            all == entry_views(entries@),
            total(all, selected_size()) <= u64::MAX,
            count <= i,
            count == total(all.take(i as int), is_selected()),
            size == total(all.take(i as int), selected_size()),
            texts_of(r@) == entries_lines(all.take(i as int)),
        decreases entries@.len() - i,
    {
        let ghost before = r@;
        let e = &entries[i];
        proof {
            total_take(all, i as int, is_selected());
            total_take(all, i as int, selected_size());
            assert(all.take(i + 1).drop_last() =~= all.take(i as int));
            assert(all.take(i + 1).last() == e@);
        }
        r.push(entry_text(e));
        if !same_text(e.reason.as_str(), "") {
            assert(e.reason@.len() > 0) by {
                reveal_strlit("");
                if e.reason@.len() == 0 {
                    assert(e.reason@ =~= ""@);
                }
            }
            r.push("      理由: ".to_owned().concat(e.reason.as_str()));
        } else {
            assert(e.reason@.len() == 0) by {
                reveal_strlit("");
            }
        }
        assert(texts_of(r@) =~= texts_of(before) + entry_lines(e@));
        if e.selected {
            count = count + 1;
            size = size + e.size;
        }
        i = i + 1;
    }
    assert(all.take(i as int) =~= all);
    let ghost before = r@;
    r.push("".to_owned());
    let mut last = String::new();
    push_decimal(&mut last, entries.len() as u64);
    last.append(" 件中 ");
    push_decimal(&mut last, count as u64);
    last.append(" 件を選択中（解放見込み: ");
    last.append(human_size(size).as_str());
    last.append("）");
    let ghost shown = last@;
    r.push(last);
    assert(shown =~= scan_lines(all).last());
    assert(texts_of(r@) =~= scan_lines(all));
    r
}

/// The line of a rule in a plan.
pub open spec fn category_line() -> spec_fn(CategoryView) -> Seq<char> {
    |c: CategoryView|
        "  "@ + padded_right(c.rule_id, 16) + " "@ + decimal(c.item_count) + " 件 / "@ + size_text(
            c.total_size,
        )
}

/// The line of a planned item.
pub open spec fn item_line() -> spec_fn(crate::delete::PlannedDeletionView) -> Seq<char> {
    |i: crate::delete::PlannedDeletionView|
        "  "@ + padded_right(i.rule_id, 16) + " "@ + i.path.text
}

/// The first line of a plan.
pub open spec fn plan_head(plan: DeletePlanView) -> Seq<char> {
    "削除予定: "@ + decimal(plan.items.len()) + " 件（"@ + size_text(plan.total_size()) + "）"@
        + if plan.mode.is_dry_run() {
        "［ドライラン］"@
    } else {
        ""@
    }
}

/// The lines on what the rules account for.
pub open spec fn categories_lines(categories: Seq<CategoryView>) -> Seq<Seq<char>> {
    if categories.len() == 0 {
        Seq::empty()
    } else {
        seq!["内訳（種類別）:"@] + categories.map_values(category_line())
    }
}

/// The line on what is excluded.
pub open spec fn excluded_lines(n: nat) -> Seq<Seq<char>> {
    if n == 0 {
        Seq::empty()
    } else {
        seq![
            "除外: "@ + decimal(n) + " 件（選択されていない・許可リスト外・要管理者権限など）"@,
        ]
    }
}

/// The lines that are printed for a plan, whose rules account for `categories`.
pub open spec fn plan_lines(plan: DeletePlanView, categories: Seq<CategoryView>) -> Seq<Seq<char>> {
    seq![plan_head(plan)] + categories_lines(categories) + plan.items.map_values(item_line())
        + excluded_lines(plan.excluded.len())
}

fn push_categories(r: &mut Vec<String>, categories: &Vec<CategoryBreakdown>)
    ensures
        texts_of(final(r)@) == texts_of(old(r)@) + categories_lines(category_views(categories@)),
{
    let ghost before = texts_of(r@);
    let ghost all = category_views(categories@);
    if categories.len() == 0 {
        assert(texts_of(r@) =~= before + categories_lines(all));
        return;
    }
    r.push("内訳（種類別）:".to_owned());
    let ghost head = seq!["内訳（種類別）:"@];
    let mut i: usize = 0;
    assert(texts_of(r@) =~= before + head + all.take(0).map_values(category_line()));
    while i < categories.len()
        invariant
            i <= categories@.len(),
            all == category_views(categories@),
            texts_of(r@) == before + head + all.take(i as int).map_values(category_line()),
        decreases categories@.len() - i,
    {
        let ghost so_far = r@;
        let c = &categories[i];
        let mut line = "  ".to_owned();
        line.append(pad_right(c.rule_id.as_str(), 16).as_str());
        line.append(" ");
        push_decimal(&mut line, c.item_count as u64);
        line.append(" 件 / ");
        line.append(human_size(c.total_size).as_str());
        let ghost shown = line@;
        assert(shown == category_line()(all[i as int]));
        r.push(line);
        assert(texts_of(r@) =~= texts_of(so_far).push(shown));
        assert(all.take(i + 1).map_values(category_line()) =~= all.take(i as int).map_values(
            category_line(),
        ).push(shown));
        i = i + 1;
        assert(texts_of(r@) =~= before + head + all.take(i as int).map_values(category_line()));
    }
    assert(all.take(i as int) =~= all);
    assert(texts_of(r@) =~= before + categories_lines(all));
}

fn push_items(r: &mut Vec<String>, plan: &DeletePlan)
    ensures
        texts_of(final(r)@) == texts_of(old(r)@) + plan@.items.map_values(item_line()),
{
    let ghost before = texts_of(r@);
    let ghost all = plan@.items;
    let items = plan.items();
    let mut i: usize = 0;
    assert(texts_of(r@) =~= before + all.take(0).map_values(item_line()));
    while i < items.len()
        invariant
            i <= items@.len(),
            all == item_views(items@),
            texts_of(r@) == before + all.take(i as int).map_values(item_line()),
        decreases items@.len() - i,
    {
        let ghost so_far = r@;
        let mut line = "  ".to_owned();
        line.append(pad_right(items[i].rule_id.as_str(), 16).as_str());
        line.append(" ");
        line.append(items[i].path.text.as_str());
        let ghost shown = line@;
        assert(shown == item_line()(all[i as int]));
        r.push(line);
        assert(texts_of(r@) =~= texts_of(so_far).push(shown));
        assert(all.take(i + 1).map_values(item_line()) =~= all.take(i as int).map_values(
            item_line(),
        ).push(shown));
        i = i + 1;
        assert(texts_of(r@) =~= before + all.take(i as int).map_values(item_line()));
    }
    assert(all.take(i as int) =~= all);
}

/// The lines that are printed for a plan: how much it deletes, what the rules
/// account for, each item, and how much is excluded.
pub fn plan_summary(plan: &DeletePlan) -> (r: Vec<String>)
    requires
        plan@.size_fits(),
        plan@.files_fit(),
    ensures
        exists|categories: Seq<CategoryView>| #[trigger]
            are_categories(plan@.items.map_values(planned_item()), categories) && in_shown_order(
                categories,
            ) && texts_of(r@) == plan_lines(plan@, categories),
{
    proof {
        plan_breakdown_covers_the_plan(plan@);
    }
    let categories = by_rule(&from_plan(plan));
    let mut r: Vec<String> = Vec::new();
    let mut head = "削除予定: ".to_owned();
    push_decimal(&mut head, plan.item_count() as u64);
    head.append(" 件（");
    head.append(human_size(plan.total_size()).as_str());
    head.append("）");
    if plan.mode().is_dry_run() {
        head.append("［ドライラン］");
    } else {
        head.append("");
    }
    assert(head@ == plan_head(plan@));
    r.push(head);
    assert(texts_of(r@) =~= seq![plan_head(plan@)]);
    push_categories(&mut r, &categories);
    push_items(&mut r, plan);
    let ghost before = texts_of(r@);
    let excluded: usize = plan.excluded().len();
    assert(excluded == plan@.excluded.len());
    if excluded > 0 {
        let mut line = "除外: ".to_owned();
        push_decimal(&mut line, excluded as u64);
        line.append(" 件（選択されていない・許可リスト外・要管理者権限など）");
        r.push(line);
    }
    assert(texts_of(r@) =~= before + excluded_lines(excluded as nat));
    assert(texts_of(r@) =~= plan_lines(plan@, category_views(categories@)));
    r
}

/// The line of an item that failed.
pub open spec fn failure_line() -> spec_fn(ItemResultView) -> Option<Seq<char>> {
    |i: ItemResultView|
        match i.outcome {
            ItemOutcomeView::Failed { message } => Some(
                "  失敗: "@ + i.path.text + " — "@ + message,
            ),
            _ => None,
        }
}

/// What is printed for what became of a plan.
pub open spec fn outcome_of(outcome: DeleteOutcomeView) -> ReportView {
    ReportView {
        out: if outcome.mode.is_dry_run() {
            seq!["ドライランのため削除は行われていません。"@]
        } else {
            seq![
                "削除完了: 成功 "@ + decimal(outcome.deleted()) + " 件、失敗 "@ + decimal(
                    outcome.failed(),
                ) + " 件、解放 "@ + size_text(outcome.freed()),
            ]
        },
        err: if outcome.mode.is_dry_run() {
            Seq::empty()
        } else {
            outcome.results.filter_map(failure_line())
        },
        code: if outcome.failed() > 0 {
            EXIT_FAILURE
        } else {
            EXIT_SUCCESS
        },
    }
}

fn failure_lines(outcome: &DeleteOutcome) -> (r: Vec<String>)
    ensures
        texts_of(r@) == outcome@.results.filter_map(failure_line()),
{
    let ghost all = outcome@.results;
    let ghost f = failure_line();
    let mut r: Vec<String> = Vec::new();
    let mut i: usize = 0;
    assert(texts_of(r@) =~= all.take(0).filter_map(f));
    while i < outcome.results.len()
        invariant
            i <= outcome.results@.len(),
            all == result_views(outcome.results@),
            f == failure_line(),
            texts_of(r@) == all.take(i as int).filter_map(f),
        decreases outcome.results@.len() - i,
    {
        let ghost before = r@;
        let result = &outcome.results[i];
        proof {
            all.lemma_filter_map_take_succ(f, i as int);
        }
        match &result.outcome {
            ItemOutcome::Failed { message } => {
                let mut line = "  失敗: ".to_owned();
                line.append(result.path.text.as_str());
                line.append(" — ");
                line.append(message.as_str());
                assert(f(all[i as int]) == Some(line@));
                r.push(line);
                assert(texts_of(r@) =~= texts_of(before).push(line@));
            },
            _ => {
                assert(f(all[i as int]) is None);
            },
        }
        i = i + 1;
        assert(texts_of(r@) =~= all.take(i as int).filter_map(f));
    }
    assert(all.take(i as int) =~= all);
    r
}

/// What is printed for what became of a plan: the sums, and each failure.
pub fn outcome_report(outcome: &DeleteOutcome) -> (r: Report)
    requires
        outcome@.freed() <= u64::MAX,
    ensures
        r@ == outcome_of(outcome@),
{
    let mut out: Vec<String> = Vec::new();
    let code: u8 = exit_code(outcome);
    if outcome.is_dry_run() {
        out.push("ドライランのため削除は行われていません。".to_owned());
        let err: Vec<String> = Vec::new();
        assert(texts_of(out@) =~= outcome_of(outcome@).out);
        assert(texts_of(err@) =~= outcome_of(outcome@).err);
        return Report { out, err, code };
    }
    let mut line = "削除完了: 成功 ".to_owned();
    push_decimal(&mut line, outcome.deleted_count() as u64);
    line.append(" 件、失敗 ");
    push_decimal(&mut line, outcome.failed_count() as u64);
    line.append(" 件、解放 ");
    line.append(human_size(outcome.freed_bytes()).as_str());
    out.push(line);
    assert(texts_of(out@) =~= outcome_of(outcome@).out);
    let err = failure_lines(outcome);
    Report { out, err, code }
}

/// The line on all runs.
pub open spec fn history_words(history: History) -> Seq<char> {
    "累計解放: "@ + size_text(history.freed()) + "（"@ + decimal(history.entries@.len()) + "回）"@
}

/// The line on all runs.
pub fn history_line(history: &History) -> (r: String)
    requires
        history.freed() <= u64::MAX,
    ensures
        r@ == history_words(*history),
{
    let mut r = "累計解放: ".to_owned();
    r.append(human_size(history.total_freed_bytes()).as_str());
    r.append("（");
    push_decimal(&mut r, history.run_count() as u64);
    r.append("回）");
    r
}

/// The line of a record.
pub open spec fn record_line() -> spec_fn(AuditRecordView) -> Seq<char> {
    |a: AuditRecordView|
        "[run "@ + decimal(a.run_id as nat) + "] "@ + padded_right(a.rule_id, 16) + " "@
            + padded_left(size_text(a.size as nat), 10) + "  "@ + padded_right(
            outcome_words(a.outcome, Lang::Ja),
            10,
        ) + " "@ + a.path.text
}

/// The line of a record.
pub fn audit_line(record: &AuditRecord) -> (r: String)
    ensures
        r@ == record_line()(record@),
{
    let mut r = "[run ".to_owned();
    push_decimal(&mut r, record.run_id);
    r.append("] ");
    r.append(pad_right(record.rule_id.as_str(), 16).as_str());
    r.append(" ");
    r.append(pad_left(human_size(record.size).as_str(), 10).as_str());
    r.append("  ");
    r.append(pad_right(outcome_text(&record.outcome, Lang::Ja).as_str(), 10).as_str());
    r.append(" ");
    r.append(record.path.text.as_str());
    r
}

/// The records that `log` is about.
pub open spec fn of_wanted_run(run: Option<u64>) -> spec_fn(AuditRecordView) -> bool {
    |a: AuditRecordView| run is None || run == Some(a.run_id)
}

/// The lines that `log` prints for the records of a log that is kept in `path`:
/// the newest that are wanted, the oldest of them first.
pub open spec fn log_of(records: Seq<AuditRecordView>, args: LogArgs, path: Seq<char>) -> Seq<
    Seq<char>,
> {
    let wanted = records.filter(of_wanted_run(args.run));
    if wanted.len() == 0 {
        seq!["記録なし。"@]
    } else {
        last_of(wanted, args.limit as nat).map_values(record_line()) + seq!["保存先: "@ + path]
    }
}

/// The lines that `log` prints for the records of a log that is kept in `path`.
pub fn log_report(records: &[AuditRecord], args: &LogArgs, path: &str) -> (r: Vec<String>)
    ensures
        texts_of(r@) == log_of(record_views(records@), *args, path@),
{
    let ghost all = record_views(records@);
    let ghost keep = of_wanted_run(args.run);
    let mut lines: Vec<String> = Vec::new();
    let ghost mut kept: Seq<AuditRecordView> = Seq::empty();
    let mut i: usize = 0;
    proof {
        reveal(Seq::filter);
        assert(kept =~= all.take(0).filter(keep));
        assert(texts_of(lines@) =~= kept.map_values(record_line()));
    }
    while i < records.len()
        invariant
            i <= records@.len(),
            all == record_views(records@),
            keep == of_wanted_run(args.run),
            kept == all.take(i as int).filter(keep),
            texts_of(lines@) == kept.map_values(record_line()),
        decreases records@.len() - i,
    {
        let ghost before = lines@;
        let record = &records[i];
        proof {
            assert(all.take(i + 1) =~= all.take(i as int).push(record@));
            all.take(i as int).lemma_filter_push(record@, keep);
        }
        let is_wanted = match args.run {
            None => true,
            Some(run) => run == record.run_id,
        };
        if is_wanted {
            let line = audit_line(record);
            lines.push(line);
            proof {
                let longer = kept.push(record@);
                assert(texts_of(lines@) =~= texts_of(before).push(line@));
                assert(longer.map_values(record_line()) =~= kept.map_values(record_line()).push(
                    line@,
                ));
                kept = longer;
            }
        }
        i = i + 1;
    }
    assert(all.take(i as int) =~= all);
    let n: usize = lines.len();
    assert(n == kept.len()) by {
        assert(texts_of(lines@).len() == n);
    }
    if n == 0 {
        let mut r: Vec<String> = Vec::new();
        r.push("記録なし。".to_owned());
        assert(texts_of(r@) =~= log_of(all, *args, path@));
        return r;
    }
    let start: usize = if n <= args.limit {
        0
    } else {
        n - args.limit
    };
    let ghost listed = lines@;
    let mut r = lines.split_off(start);
    let ghost newest = last_of(kept, args.limit as nat);
    assert(texts_of(r@) =~= newest.map_values(record_line())) by {
        assert(r@ =~= listed.subrange(start as int, n as int));
        assert forall|j: int| 0 <= j < r@.len() implies #[trigger] texts_of(r@)[j]
            == newest.map_values(record_line())[j] by {
            assert(texts_of(r@)[j] == texts_of(listed)[start + j]);
            assert(newest[j] == kept[start + j]);
        }
    }
    let ghost so_far = r@;
    r.push("保存先: ".to_owned().concat(path));
    assert(texts_of(r@) =~= texts_of(so_far).push("保存先: "@ + path@));
    assert(texts_of(r@) =~= log_of(all, *args, path@));
    r
}

// ---- For people, or for machines ----

/// The lines that `scan` prints for people: none where it writes data.
pub open spec fn printed_scan(format: OutputFormat, entries: Seq<ScanEntryView>) -> Seq<Seq<char>> {
    if format == OutputFormat::Text {
        scan_lines(entries)
    } else {
        Seq::empty()
    }
}

/// The lines that `scan` prints for people.
pub fn scan_printout(args: &ScopeArgs, entries: &[ScanEntry]) -> (r: Vec<String>)
    requires
        args.format == OutputFormat::Text ==> total(entry_views(entries@), selected_size())
            <= u64::MAX,
    ensures
        texts_of(r@) == printed_scan(args.format, entry_views(entries@)),
{
    if args.format == OutputFormat::Text {
        return scan_report(entries);
    }
    let r: Vec<String> = Vec::new();
    assert(texts_of(r@) =~= Seq::empty());
    r
}

/// The lines that `clean` prints for people of its plan, whose rules account for
/// `categories`: none where it writes data.
pub open spec fn printed_plan(
    args: CleanArgs,
    plan: DeletePlanView,
    categories: Seq<CategoryView>,
) -> Seq<Seq<char>> {
    if args.format == OutputFormat::Text {
        plan_lines(plan, categories)
    } else {
        Seq::empty()
    }
}

/// The lines that `clean` prints for people of its plan.
pub fn plan_printout(args: &CleanArgs, plan: &DeletePlan) -> (r: Vec<String>)
    requires
        args.format == OutputFormat::Text ==> plan@.size_fits() && plan@.files_fit(),
    ensures
        args.format != OutputFormat::Text ==> r@.len() == 0,
        args.format == OutputFormat::Text ==> exists|categories: Seq<CategoryView>| #[trigger]
            are_categories(plan@.items.map_values(planned_item()), categories) && in_shown_order(
                categories,
            ) && texts_of(r@) == printed_plan(*args, plan@, categories),
{
    if args.format == OutputFormat::Text {
        plan_summary(plan)
    } else {
        Vec::new()
    }
}

/// What `clean` prints for people of what became of its plan: nothing where it
/// writes data.
pub open spec fn printed_outcome(args: CleanArgs, outcome: DeleteOutcomeView) -> ReportView {
    if args.format == OutputFormat::Text {
        outcome_of(outcome)
    } else {
        ReportView { out: Seq::empty(), err: Seq::empty(), code: outcome_of(outcome).code }
    }
}

/// What `clean` prints for people of what became of its plan.
pub fn outcome_printout(args: &CleanArgs, outcome: &DeleteOutcome) -> (r: Report)
    requires
        args.format == OutputFormat::Text ==> outcome@.freed() <= u64::MAX,
    ensures
        r@ == printed_outcome(*args, outcome@),
{
    if args.format == OutputFormat::Text {
        return outcome_report(outcome);
    }
    let r = Report { out: Vec::new(), err: Vec::new(), code: exit_code(outcome) };
    assert(r@ =~= printed_outcome(*args, outcome@));
    r
}

/// What `clean` prints stands apart from its data: there is none, or it goes to
/// a file.
pub open spec fn has_room_for_text(args: CleanArgs) -> bool {
    args.format == OutputFormat::Text || args.output is Some
}

/// The lines that `clean` prints for people of all runs: none where data is
/// printed in their place.
pub open spec fn printed_history(args: CleanArgs, history: History) -> Seq<Seq<char>> {
    if has_room_for_text(args) {
        seq![history_words(history)]
    } else {
        Seq::empty()
    }
}

/// The lines that `clean` prints for people of all runs.
pub fn history_printout(args: &CleanArgs, history: &History) -> (r: Vec<String>)
    requires
        has_room_for_text(*args) ==> history.freed() <= u64::MAX,
    ensures
        texts_of(r@) == printed_history(*args, *history),
{
    let mut r: Vec<String> = Vec::new();
    if args.format == OutputFormat::Text || args.output.is_some() {
        r.push(history_line(history));
    }
    assert(texts_of(r@) =~= printed_history(*args, *history));
    r
}

/// Where data is printed, no line for people is printed with it: not of the
/// plan, not of the user's consent, not of what became of the plan, and not of
/// all runs.
pub proof fn printed_data_stands_alone(
    args: CleanArgs,
    plan: DeletePlanView,
    categories: Seq<CategoryView>,
    answer: bool,
    outcome: DeleteOutcomeView,
    history: History,
)
    requires
        args.format != OutputFormat::Text,
        args.output is None,
    ensures
        printed_plan(args, plan, categories).len() == 0,
        refusal(consent_for(args, plan.items.len()), answer).out.len() == 0,
        printed_outcome(args, outcome).out.len() == 0,
        printed_history(args, history).len() == 0,
{
}

/// Exported data as it is printed: it ends a line.
pub open spec fn printed(data: Seq<char>) -> Seq<char> {
    if data.len() > 0 && data.last() == '\n' {
        data
    } else {
        data.push('\n')
    }
}

/// Exported data as it is printed.
pub fn printed_export(data: &str) -> (r: String)
    ensures
        r@ == printed(data@),
{
    let chars = crate::text::chars_of(data);
    let mut r = data.to_owned();
    if chars.len() > 0 && chars[chars.len() - 1] == '\n' {
        return r;
    }
    r.push('\n');
    r
}

/// What is said once exported data was to be written to the file `path`.
pub open spec fn written(item_count: nat, path: Seq<char>, error: Option<String>) -> ReportView {
    match error {
        None => ReportView {
            out: seq![decimal(item_count) + " 件を書き出しました: "@ + path],
            err: Seq::empty(),
            code: EXIT_SUCCESS,
        },
        Some(e) => ReportView {
            out: Seq::empty(),
            err: seq!["書き出しに失敗しました（"@ + path + "）: "@ + e@],
            code: EXIT_FAILURE,
        },
    }
}

/// What is said once exported data was to be written to the file `path`, and
/// came to `error` or not.
pub fn write_report(item_count: usize, path: &str, error: &Option<String>) -> (r: Report)
    ensures
        r@ == written(item_count as nat, path@, *error),
{
    let mut out: Vec<String> = Vec::new();
    let mut err: Vec<String> = Vec::new();
    let code: u8 = match error {
        None => {
            let mut line = String::new();
            push_decimal(&mut line, item_count as u64);
            line.append(" 件を書き出しました: ");
            line.append(path);
            assert(line@ =~= decimal(item_count as nat) + " 件を書き出しました: "@ + path@);
            out.push(line);
            EXIT_SUCCESS
        },
        Some(e) => {
            let mut line = "書き出しに失敗しました（".to_owned();
            line.append(path);
            line.append("）: ");
            line.append(e.as_str());
            err.push(line);
            EXIT_FAILURE
        },
    };
    assert(texts_of(out@) =~= written(item_count as nat, path@, *error).out);
    assert(texts_of(err@) =~= written(item_count as nat, path@, *error).err);
    Report { out, err, code }
}

// ---- What the commands do ----

/// A command that asks for administrator rights and lacks them is started again,
/// unless it was already; every other command runs.
pub proof fn when_a_command_is_started_again(command: Command, elevated: bool, relaunched: bool)
    ensures
        ({
            let asks = match command {
                Command::Scan(args) => args.admin,
                Command::Clean(args) => args.admin,
                Command::Log(_) => false,
            };
            &&& first_step(command, elevated, relaunched) == Startup::Relaunch <==> asks && !elevated
                && !relaunched
            &&& first_step(command, elevated, relaunched) == Startup::RunWithoutRights <==> asks
                && !elevated && relaunched
            &&& first_step(command, elevated, relaunched) == Startup::Run <==> !asks || elevated
        }),
{
}

/// The exit code is zero after starting again as administrator, two where the
/// user declined, and one where it failed.
pub proof fn how_starting_again_ends(result: ElevateResult)
    ensures
        result is Ok ==> elevation(result).code == 0 && elevation(result).err.len() == 0,
        result matches Err(ElevateError::Cancelled) ==> elevation(result).code == 2,
        (result is Err && result->Err_0 !is Cancelled) ==> elevation(result).code == 1,
        result is Err ==> elevation(result).out.len() == 0 && elevation(result).err.len() > 0,
{
}

/// What a run of `clean` amounts to: it deletes for good if and only if that is
/// asked for, it is no dry run, there is something to delete, and the user has
/// agreed; it deletes by way of the trash if and only if it is asked to delete
/// and neither for good nor as a dry run.
pub proof fn what_a_run_amounts_to(args: CleanArgs, count: nat, answer: bool)
    ensures
        final_kind(args, count, answer) == RequestKind::PermanentConfirmed <==> args.permanent
            && !args.dry_run && count > 0 && (args.yes || (args.format == OutputFormat::Text
            && answer)),
        final_kind(args, count, answer) == RequestKind::Execute <==> !args.permanent
            && !args.dry_run,
        final_kind(args, count, answer) == RequestKind::DryRun <==> !args.permanent
            && args.dry_run,
        final_kind(args, count, answer) == RequestKind::PermanentUnconfirmed <==> args.permanent
            && (args.dry_run || count == 0 || (!args.yes && (args.format != OutputFormat::Text
            || !answer))),
{
}

/// The user is asked if and only if something is to be deleted for good, it was
/// not agreed to beforehand, and there is a way to ask.
pub proof fn when_the_user_is_asked(args: CleanArgs, count: nat)
    ensures
        consent_for(args, count) == Consent::Ask <==> args.permanent && !args.dry_run && count > 0
            && !args.yes && args.format == OutputFormat::Text,
        consent_for(args, count) == Consent::Given <==> args.permanent && !args.dry_run && count
            > 0 && args.yes,
        consent_for(args, count) == Consent::CannotAsk <==> args.permanent && !args.dry_run
            && count > 0 && !args.yes && args.format != OutputFormat::Text,
{
}

/// Each step follows from what came before it: the user is asked where that is
/// needed, the plan is exported before anything is deleted, nothing is deleted
/// where exporting failed, and only what was deleted in earnest is recorded.
pub proof fn which_step_comes_next(args: CleanArgs, event: CleanEvent)
    ensures
        next_action(args, event) == CleanAction::Ask <==> event == CleanEvent::Planned(
            Consent::Ask,
        ),
        next_action(args, event) == CleanAction::Choose(true) <==> event == CleanEvent::Answered(
            true,
        ),
        next_action(args, event) == CleanAction::Choose(false) <==> event == CleanEvent::Answered(
            false,
        ) || (event is Planned && event != CleanEvent::Planned(Consent::Ask)),
        next_action(args, event) == CleanAction::Export <==> event == CleanEvent::Chosen
            && args.format != OutputFormat::Text,
        next_action(args, event) == CleanAction::Delete <==> (event == CleanEvent::Chosen
            && args.format == OutputFormat::Text) || event == CleanEvent::Exported(0),
        next_action(args, event) == CleanAction::Record <==> event is Deleted
            && !event->is_dry_run,
        event matches CleanEvent::Exported(code) ==> (code != 0 ==> next_action(args, event)
            == CleanAction::Exit(code)),
        event matches CleanEvent::Deleted { is_dry_run, code } ==> (is_dry_run ==> next_action(
            args,
            event,
        ) == CleanAction::Exit(code)),
        event matches CleanEvent::Recorded { code } ==> next_action(args, event)
            == CleanAction::Exit(code),
{
}

/// A run ends with the exit code one if and only if an item failed, and a line
/// tells each failure unless it was a dry run.
pub proof fn how_a_run_ends(outcome: DeleteOutcomeView)
    ensures
        outcome_of(outcome).code == 1 || outcome_of(outcome).code == 0,
        outcome_of(outcome).code == 1 <==> exists|i: int|
            0 <= i < outcome.results.len() && (#[trigger] outcome.results[i]).outcome is Failed,
        outcome_of(outcome).out.len() == 1,
        outcome.mode.dry_run_reason is None ==> outcome_of(outcome).err.len() == outcome.failed(),
        outcome.mode.dry_run_reason is Some ==> outcome_of(outcome).err.len() == 0,
        forall|i: int|
            0 <= i < outcome.results.len() && outcome.mode.dry_run_reason is None ==> (
            #[trigger] outcome.results[i].outcome matches ItemOutcomeView::Failed { message }
                ==> outcome_of(outcome).err.contains(
                "  失敗: "@ + outcome.results[i].path.text + " — "@ + message,
            )),
{
    let results = outcome.results;
    let one = crate::delete::is_failed();
    if outcome.failed() > 0 {
        let i = crate::seqs::total_is_counted(results, one);
        assert(results[i].outcome is Failed);
    }
    if exists|i: int| 0 <= i < results.len() && (#[trigger] results[i]).outcome is Failed {
        let i = choose|i: int| 0 <= i < results.len() && (#[trigger] results[i]).outcome is Failed;
        crate::seqs::total_counts(results, one, i);
    }
    crate::seqs::filter_map_count(results, failure_line(), one);
    if outcome.mode.dry_run_reason is None {
        assert forall|i: int| 0 <= i < results.len() implies (
        #[trigger] results[i].outcome matches ItemOutcomeView::Failed { message }
            ==> outcome_of(outcome).err.contains(
            "  失敗: "@ + results[i].path.text + " — "@ + message,
        )) by {
            if results[i].outcome is Failed {
                let k = crate::seqs::filter_map_keeps(results, failure_line(), i);
                assert(outcome_of(outcome).err[k] == failure_line()(results[i])->0);
            }
        }
    }
}

proof fn entries_have_lines(entries: Seq<ScanEntryView>, i: int)
    requires
        0 <= i < entries.len(),
    ensures
        entries_lines(entries).contains(entry_line(entries[i])),
        entries[i].reason.len() > 0 ==> entries_lines(entries).contains(
            "      理由: "@ + entries[i].reason,
        ),
    decreases entries.len(),
{
    let front = entries.drop_last();
    let before = entries_lines(front);
    let lines = entry_lines(entries.last());
    let all = entries_lines(entries);
    if i < front.len() {
        entries_have_lines(front, i);
        assert(front[i] == entries[i]);
        let k = choose|k: int| 0 <= k < before.len() && before[k] == entry_line(entries[i]);
        assert(all[k] == before[k]);
        if entries[i].reason.len() > 0 {
            let m = choose|m: int|
                0 <= m < before.len() && before[m] == "      理由: "@ + entries[i].reason;
            assert(all[m] == before[m]);
        }
    } else {
        assert(all[before.len() as int] == lines[0]);
        if entries[i].reason.len() > 0 {
            assert(all[before.len() as int + 1] == lines[1]);
        }
    }
}

/// The list of a scan has a line for each entry, and one for its reason where it
/// has one, and ends with how many there are, how many of them are selected and
/// what deleting these would free.
pub proof fn what_a_scan_lists(entries: Seq<ScanEntryView>, i: int)
    requires
        0 <= i < entries.len(),
    ensures
        scan_lines(entries).contains(entry_line(entries[i])),
        entries[i].reason.len() > 0 ==> scan_lines(entries).contains(
            "      理由: "@ + entries[i].reason,
        ),
        scan_lines(entries).last() == decimal(entries.len()) + " 件中 "@ + decimal(
            total(entries, is_selected()),
        ) + " 件を選択中（解放見込み: "@ + size_text(total(entries, selected_size())) + "）"@,
{
    entries_have_lines(entries, i);
    let body = entries_lines(entries);
    let all = scan_lines(entries);
    let k = choose|k: int| 0 <= k < body.len() && body[k] == entry_line(entries[i]);
    assert(all[k] == body[k]);
    if entries[i].reason.len() > 0 {
        let m = choose|m: int|
            0 <= m < body.len() && body[m] == "      理由: "@ + entries[i].reason;
        assert(all[m] == body[m]);
    }
}

/// The line of an entry shows whether it is selected and whether it is
/// recommended, its rule, its size, its age and its place.
pub proof fn what_the_line_of_an_entry_shows(e: ScanEntryView)
    ensures
        ({
            let size = padded_left(size_text(e.size as nat), 10);
            let age = padded_right(
                match e.age_days {
                    Some(d) => decimal(d as nat) + "日"@,
                    None => "不明"@,
                },
                5,
            );
            let mark = if e.selected {
                "[x] "@
            } else {
                "[ ] "@
            };
            let advice = padded_right(
                if e.recommended {
                    "推奨"@
                } else {
                    "-"@
                },
                4,
            );
            entry_line(e) == mark + padded_right(e.rule_id, 16) + " "@ + size + "  経過:"@ + age
                + " "@ + advice + " "@ + e.path.text
        }),
{
}

/// Of the log the last records are shown, as many as asked for, of the run that
/// is asked for or of all; where there is none, that is said.
pub proof fn what_of_the_log_is_shown(
    records: Seq<AuditRecordView>,
    args: LogArgs,
    path: Seq<char>,
    i: int,
)
    ensures
        ({
            let wanted = records.filter(of_wanted_run(args.run));
            let lines = log_of(records, args, path);
            let shown = if wanted.len() < args.limit {
                wanted.len() as int
            } else {
                args.limit as int
            };
            &&& wanted.len() == 0 ==> lines == seq!["記録なし。"@]
            &&& wanted.len() > 0 ==> lines.len() == shown + 1 && lines.last() == "保存先: "@ + path
            &&& wanted.len() > 0 && 0 <= i < shown ==> lines[i] == record_line()(
                wanted[wanted.len() - shown + i],
            )
        }),
        0 <= i < records.len() ==> (records.filter(of_wanted_run(args.run)).contains(records[i])
            <==> args.run is None || args.run == Some(records[i].run_id)),
{
    let keep = of_wanted_run(args.run);
    let wanted = records.filter(keep);
    if 0 <= i < records.len() {
        if keep(records[i]) {
            records.lemma_filter_contains(keep, i);
        }
        if wanted.contains(records[i]) {
            let k = choose|k: int| 0 <= k < wanted.len() && wanted[k] == records[i];
            records.lemma_filter_pred(keep, k);
        }
    }
}

/// What is printed ends with exactly one line break more than it needs: one is
/// added where there is none at the end.
pub proof fn printed_data_ends_a_line(data: Seq<char>)
    ensures
        printed(data).len() > 0,
        printed(data).last() == '\n',
        data.len() > 0 && data.last() == '\n' ==> printed(data) == data,
        data.len() == 0 || data.last() != '\n' ==> printed(data).drop_last() == data,
{
    if data.len() == 0 || data.last() != '\n' {
        assert(printed(data).drop_last() =~= data);
    }
}

/// Writing a file ends with the exit code one if and only if it failed.
pub proof fn how_writing_ends(item_count: nat, path: Seq<char>, error: Option<String>)
    ensures
        error is None ==> written(item_count, path, error).code == 0 && written(
            item_count,
            path,
            error,
        ).err.len() == 0,
        error is Some ==> written(item_count, path, error).code == 1 && written(
            item_count,
            path,
            error,
        ).out.len() == 0 && written(item_count, path, error).err.len() == 1,
{
}

/// A plan is listed with all its items, in their order, after its head and its
/// categories, and with what is left out where there is any.
pub proof fn what_a_plan_lists(plan: DeletePlanView, categories: Seq<CategoryView>, i: int)
    requires
        0 <= i < plan.items.len(),
    ensures
        ({
            let lines = plan_lines(plan, categories);
            let start = if categories.len() == 0 {
                1
            } else {
                2 + categories.len()
            };
            &&& lines.len() == start + plan.items.len() + (if plan.excluded.len() > 0 {
                1int
            } else {
                0int
            })
            &&& lines[start + i] == "  "@ + padded_right(plan.items[i].rule_id, 16) + " "@
                + plan.items[i].path.text
            &&& lines[0] == "削除予定: "@ + decimal(plan.items.len()) + " 件（"@ + size_text(
                plan.total_size(),
            ) + "）"@ + if plan.mode.dry_run_reason is Some {
                "［ドライラン］"@
            } else {
                ""@
            }
        }),
{
}

/// Only `y` and `yes` mean yes.
pub proof fn which_words_mean_yes(word: Seq<char>)
    ensures
        means_yes(word) <==> word == seq!['y'] || word == seq!['y', 'e', 's'],
{
    reveal_strlit("y");
    reveal_strlit("yes");
    assert("y"@ =~= seq!['y']);
    assert("yes"@ =~= seq!['y', 'e', 's']);
}

/// Nothing but the data is printed unless text is asked for.
pub proof fn when_text_is_printed(
    args: CleanArgs,
    entries: Seq<ScanEntryView>,
    plan: DeletePlanView,
    categories: Seq<CategoryView>,
    outcome: DeleteOutcomeView,
    history: History,
)
    ensures
        printed_scan(args.format, entries).len() > 0 <==> args.format == OutputFormat::Text,
        printed_plan(args, plan, categories).len() > 0 <==> args.format == OutputFormat::Text,
        printed_outcome(args, outcome).out.len() > 0 <==> args.format == OutputFormat::Text,
        printed_history(args, history).len() > 0 <==> args.format == OutputFormat::Text
            || args.output is Some,
        printed_outcome(args, outcome).code == 1 <==> outcome.failed() > 0,
{
}

/// After a refusal the user is told that nothing is deleted for good, or why it
/// could not be asked.
pub proof fn what_a_refusal_says(consent: Consent, answer: bool)
    ensures
        refusal(consent, answer).out.len() > 0 <==> consent == Consent::Ask && !answer,
        refusal(consent, answer).err.len() > 0 <==> consent == Consent::CannotAsk,
        refusal(consent, answer).code == 0,
{
}

} // verus!
