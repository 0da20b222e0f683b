//! What the user interface shows: words, rows and groups.
//!
//! Nothing is decided here that bears on what is deleted.

use crate::audit::{record_views, AuditRecord, AuditRecordView};
use crate::breakdown::{category_views, BucketBreakdown, CategoryBreakdown, CategoryView};
use crate::config::{Config, RulePref};
use crate::delete::{excluded_views, ExcludedEntry, ExcludedEntryView, ExclusionReason};
use crate::delete::{ItemOutcome, ItemOutcomeView};
use crate::entry::{entry_views, DuplicateInfo, ScanEntry, ScanEntryView};
use crate::export::{label_of, rule_lookup};
use crate::format::{ago_words, human_size, relative_days_in, size_text};
use crate::history::{newest_first, History, HistoryEntry};
use crate::i18n::Lang;
use crate::path::{FilePath, FilePathView};
use crate::rule::{permitted_when, rule_views, views_of_push, Rule, RuleView, Safety};
use crate::scan::{safety_scope, scope, wanted, with_pref, SkipReason};
use crate::text::{copy_texts, decimal, is_listed, push_decimal, same_text, texts_of};
use vstd::prelude::*;

verus! {

// ---- Words ----

/// What is scanned.
#[derive(Debug, Clone, Copy, PartialEq, Eq, Structural)]
pub enum Scope {
    /// What is safe only.
    SafeOnly,
    /// Everything.
    All,
}

impl Scope {
    /// The safeties that are scanned.
    pub fn safeties(self) -> (r: Vec<Safety>)
        ensures
            r@ == scope(self == Scope::All),
    {
        safety_scope(self == Scope::All)
    }

    /// The words for the scope.
    pub open spec fn words(self, lang: Lang) -> Seq<char> {
        match (self, lang) {
            (Scope::SafeOnly, Lang::Ja) => "安全なものだけ"@,
            (Scope::All, Lang::Ja) => "すべて表示"@,
            (Scope::SafeOnly, Lang::En) => "Safe items only"@,
            (Scope::All, Lang::En) => "Show all"@,
        }
    }

    /// The words for the scope.
    pub fn label(self, lang: Lang) -> (r: &'static str)
        ensures
            r@ == self.words(lang),
    {
        match (self, lang) {
            (Scope::SafeOnly, Lang::Ja) => "安全なものだけ",
            (Scope::All, Lang::Ja) => "すべて表示",
            (Scope::SafeOnly, Lang::En) => "Safe items only",
            (Scope::All, Lang::En) => "Show all",
        }
    }
}

/// The words for a safety.
pub open spec fn safety_words(safety: Safety, lang: Lang) -> Seq<char> {
    match (safety, lang) {
        (Safety::Safe, Lang::Ja) => "安全"@,
        (Safety::Caution, Lang::Ja) => "注意"@,
        (Safety::Review, Lang::Ja) => "要確認"@,
        (Safety::Safe, Lang::En) => "Safe"@,
        (Safety::Caution, Lang::En) => "Caution"@,
        (Safety::Review, Lang::En) => "Review"@,
    }
}

/// The words for a safety.
pub fn safety_label(safety: Safety, lang: Lang) -> (r: &'static str)
    ensures
        r@ == safety_words(safety, lang),
{
    match (safety, lang) {
        (Safety::Safe, Lang::Ja) => "安全",
        (Safety::Caution, Lang::Ja) => "注意",
        (Safety::Review, Lang::Ja) => "要確認",
        (Safety::Safe, Lang::En) => "Safe",
        (Safety::Caution, Lang::En) => "Caution",
        (Safety::Review, Lang::En) => "Review",
    }
}

/// The words for what the user wants of a rule.
pub open spec fn pref_words(pref: RulePref, lang: Lang) -> Seq<char> {
    match (pref, lang) {
        (RulePref::AlwaysSelect, Lang::Ja) => "常に選択"@,
        (RulePref::Exclude, Lang::Ja) => "常に除外"@,
        (RulePref::AskEachTime, Lang::Ja) => "毎回確認"@,
        (RulePref::AlwaysSelect, Lang::En) => "Always select"@,
        (RulePref::Exclude, Lang::En) => "Always exclude"@,
        (RulePref::AskEachTime, Lang::En) => "Ask each time"@,
    }
}

/// The words for what the user wants of a rule.
pub fn pref_label(pref: RulePref, lang: Lang) -> (r: &'static str)
    ensures
        r@ == pref_words(pref, lang),
{
    match (pref, lang) {
        (RulePref::AlwaysSelect, Lang::Ja) => "常に選択",
        (RulePref::Exclude, Lang::Ja) => "常に除外",
        (RulePref::AskEachTime, Lang::Ja) => "毎回確認",
        (RulePref::AlwaysSelect, Lang::En) => "Always select",
        (RulePref::Exclude, Lang::En) => "Always exclude",
        (RulePref::AskEachTime, Lang::En) => "Ask each time",
    }
}

/// The words for an age.
pub open spec fn age_words(age_days: Option<u64>, lang: Lang) -> Seq<char> {
    match age_days {
        Some(n) => if n == 0 {
            match lang {
                Lang::Ja => "本日"@,
                Lang::En => "Today"@,
            }
        } else {
            decimal(n as nat) + match lang {
                Lang::Ja => "日"@,
                Lang::En => " days"@,
            }
        },
        None => match lang {
            Lang::Ja => "不明"@,
            Lang::En => "Unknown"@,
        },
    }
}

/// The words for an age.
pub fn age_label(age_days: Option<u64>, lang: Lang) -> (r: String)
    ensures
        r@ == age_words(age_days, lang),
{
    match age_days {
        Some(n) => {
            if n == 0 {
                match lang {
                    Lang::Ja => "本日".to_owned(),
                    Lang::En => "Today".to_owned(),
                }
            } else {
                let mut r = String::new();
                push_decimal(&mut r, n);
                match lang {
                    Lang::Ja => r.append("日"),
                    Lang::En => r.append(" days"),
                }
                assert(r@ =~= age_words(age_days, lang));
                r
            }
        },
        None => match lang {
            Lang::Ja => "不明".to_owned(),
            Lang::En => "Unknown".to_owned(),
        },
    }
}

/// The note on a large file: there is one from the threshold on.
pub open spec fn large_file_note(size: u64, threshold: Option<u64>, lang: Lang) -> Option<
    Seq<char>,
> {
    match threshold {
        None => None,
        Some(t) => if size < t {
            None
        } else {
            match lang {
                Lang::Ja => Some("⚠ 大容量（"@ + size_text(size as nat) + "）"@),
                Lang::En => Some("⚠ Large ("@ + size_text(size as nat) + ")"@),
            }
        },
    }
}

/// A text that may be missing, by its value.
pub open spec fn note_value(r: Option<String>) -> Option<Seq<char>> {
    match r {
        Some(s) => Some(s@),
        None => None,
    }
}

/// The note on a large file.
pub fn large_file_badge(size: u64, threshold: Option<u64>, lang: Lang) -> (r: Option<String>)
    ensures
        note_value(r) == large_file_note(size, threshold, lang),
{
    match threshold {
        None => None,
        Some(t) => {
            if size < t {
                return None;
            }
            let amount = human_size(size);
            match lang {
                Lang::Ja => Some(surrounded("⚠ 大容量（", amount.as_str(), "）")),
                Lang::En => Some(surrounded("⚠ Large (", amount.as_str(), ")")),
            }
        },
    }
}

fn surrounded(before: &str, middle: &str, after: &str) -> (r: String)
    ensures
        r@ == before@ + middle@ + after@,
{
    let mut r = before.to_owned();
    r.append(middle);
    r.append(after);
    r
}

/// The note on a duplicate: how many others there are. The one to keep has
/// none.
pub open spec fn duplicate_note(duplicate: Option<DuplicateInfo>, lang: Lang) -> Option<Seq<char>> {
    match duplicate {
        None => None,
        Some(info) => if info.is_primary {
            None
        } else {
            match lang {
                Lang::Ja => Some(
                    "⧉ 重複（他に"@ + decimal((info.group_size - 1) as nat) + "件）"@,
                ),
                Lang::En => Some(
                    "⧉ Duplicate ("@ + decimal((info.group_size - 1) as nat) + " others)"@,
                ),
            }
        },
    }
}

/// The note on a duplicate.
pub fn duplicate_badge(duplicate: Option<DuplicateInfo>, lang: Lang) -> (r: Option<String>)
    requires
        duplicate is Some && !duplicate->0.is_primary ==> duplicate->0.group_size >= 1,
    ensures
        note_value(r) == duplicate_note(duplicate, lang),
{
    match duplicate {
        None => None,
        Some(info) => {
            if info.is_primary {
                return None;
            }
            let mut others = String::new();
            push_decimal(&mut others, (info.group_size - 1) as u64);
            assert(others@ =~= decimal((info.group_size - 1) as nat));
            match lang {
                Lang::Ja => Some(surrounded("⧉ 重複（他に", others.as_str(), "件）")),
                Lang::En => Some(surrounded("⧉ Duplicate (", others.as_str(), " others)")),
            }
        },
    }
}

/// The words for why a rule was skipped.
pub open spec fn skip_words(reason: SkipReason, lang: Lang) -> Seq<char> {
    match (reason, lang) {
        (
            SkipReason::NeedsAdmin,
            Lang::Ja,
        ) => "管理者権限が必要なため対象外（管理者として実行し直すと対象になります）"@,
        (SkipReason::UnknownBase, Lang::Ja) => "この環境では場所を特定できませんでした"@,
        (SkipReason::Unreadable, Lang::Ja) => "読み取れませんでした"@,
        (SkipReason::MissingThreshold, Lang::Ja) => "しきい値が未設定のため対象外"@,
        (
            SkipReason::NeedsAdmin,
            Lang::En,
        ) => "Excluded because administrator privileges are required (available if you restart as administrator)"@,
        (SkipReason::UnknownBase, Lang::En) => "Could not determine the location on this system"@,
        (SkipReason::Unreadable, Lang::En) => "Could not be read"@,
        (SkipReason::MissingThreshold, Lang::En) => "Excluded because the threshold is not set"@,
    }
}

/// The words for why a rule was skipped.
pub fn skip_reason_label(reason: &SkipReason, lang: Lang) -> (r: &'static str)
    ensures
        r@ == skip_words(*reason, lang),
{
    match (reason, lang) {
        (
            SkipReason::NeedsAdmin,
            Lang::Ja,
        ) => "管理者権限が必要なため対象外（管理者として実行し直すと対象になります）",
        (SkipReason::UnknownBase, Lang::Ja) => "この環境では場所を特定できませんでした",
        (SkipReason::Unreadable, Lang::Ja) => "読み取れませんでした",
        (SkipReason::MissingThreshold, Lang::Ja) => "しきい値が未設定のため対象外",
        (
            SkipReason::NeedsAdmin,
            Lang::En,
        ) => "Excluded because administrator privileges are required (available if you restart as administrator)",
        (SkipReason::UnknownBase, Lang::En) => "Could not determine the location on this system",
        (SkipReason::Unreadable, Lang::En) => "Could not be read",
        (SkipReason::MissingThreshold, Lang::En) => "Excluded because the threshold is not set",
    }
}

/// The words on what is in the recycle bin already.
pub open spec fn recycle_bin_words(lang: Lang) -> Seq<char> {
    match lang {
        Lang::Ja => "ゴミ箱の中身は「完全削除」にチェックを入れた場合のみ対象になります（復元できません）。"@,
        Lang::En => "Items already in the Recycle Bin are only included when \"Permanently delete\" is checked (cannot be restored)."@,
    }
}

/// The words on what is in the recycle bin already.
pub fn recycle_bin_exclusion_hint(lang: Lang) -> (r: &'static str)
    ensures
        r@ == recycle_bin_words(lang),
{
    match lang {
        Lang::Ja => "ゴミ箱の中身は「完全削除」にチェックを入れた場合のみ対象になります（復元できません）。",
        Lang::En => "Items already in the Recycle Bin are only included when \"Permanently delete\" is checked (cannot be restored).",
    }
}

/// The words for why an entry is excluded. One that is simply not selected has
/// none.
pub open spec fn exclusion_words(reason: ExclusionReason, lang: Lang) -> Option<Seq<char>> {
    match (reason, lang) {
        (ExclusionReason::NotSelected, _) => None,
        (ExclusionReason::UnknownRule, Lang::Ja) => Some("許可リスト外のため対象外"@),
        (ExclusionReason::NeedsAdmin, Lang::Ja) => Some("管理者権限が必要なため対象外"@),
        (ExclusionReason::OutsideRuleBase, Lang::Ja) => Some("走査基点の外のため対象外"@),
        (ExclusionReason::UnresolvedBase, Lang::Ja) => Some("場所を特定できないため対象外"@),
        (ExclusionReason::RequiresPermanent, Lang::Ja) => Some("完全削除が必要（ゴミ箱の中身）"@),
        (ExclusionReason::UnknownRule, Lang::En) => Some("Excluded: not in the rule allowlist"@),
        (ExclusionReason::NeedsAdmin, Lang::En) => Some(
            "Excluded: administrator privileges required"@,
        ),
        (ExclusionReason::OutsideRuleBase, Lang::En) => Some(
            "Excluded: outside the rule's scan base"@,
        ),
        (ExclusionReason::UnresolvedBase, Lang::En) => Some(
            "Excluded: could not determine the location"@,
        ),
        (ExclusionReason::RequiresPermanent, Lang::En) => Some(
            "Requires permanent deletion (already in Recycle Bin)"@,
        ),
    }
}

/// Words that may be missing, by their value.
pub open spec fn words_value(r: Option<&'static str>) -> Option<Seq<char>> {
    match r {
        Some(s) => Some(s@),
        None => None,
    }
}

/// The words for why an entry is excluded.
pub fn exclusion_label(reason: ExclusionReason, lang: Lang) -> (r: Option<&'static str>)
    ensures
        words_value(r) == exclusion_words(reason, lang),
{
    match (reason, lang) {
        (ExclusionReason::NotSelected, _) => None,
        (ExclusionReason::UnknownRule, Lang::Ja) => Some("許可リスト外のため対象外"),
        (ExclusionReason::NeedsAdmin, Lang::Ja) => Some("管理者権限が必要なため対象外"),
        (ExclusionReason::OutsideRuleBase, Lang::Ja) => Some("走査基点の外のため対象外"),
        (ExclusionReason::UnresolvedBase, Lang::Ja) => Some("場所を特定できないため対象外"),
        (ExclusionReason::RequiresPermanent, Lang::Ja) => Some("完全削除が必要（ゴミ箱の中身）"),
        (ExclusionReason::UnknownRule, Lang::En) => Some("Excluded: not in the rule allowlist"),
        (ExclusionReason::NeedsAdmin, Lang::En) => Some(
            "Excluded: administrator privileges required",
        ),
        (ExclusionReason::OutsideRuleBase, Lang::En) => Some(
            "Excluded: outside the rule's scan base",
        ),
        (ExclusionReason::UnresolvedBase, Lang::En) => Some(
            "Excluded: could not determine the location",
        ),
        (ExclusionReason::RequiresPermanent, Lang::En) => Some(
            "Requires permanent deletion (already in Recycle Bin)",
        ),
    }
}

/// The words on restarting as administrator.
pub open spec fn elevate_words(lang: Lang) -> Seq<char> {
    match lang {
        Lang::Ja => "pc-cleaner を管理者権限で起動し直します。\nUAC の確認画面で「はい」を選択してください。\n\n現在のウィンドウは終了し、走査結果と未保存の選択は失われます（ルール別の既定は保存してから起動し直します）。"@,
        Lang::En => "pc-cleaner will restart with administrator privileges.\nPlease select \"Yes\" on the UAC prompt.\n\nThe current window will close, and scan results and unsaved selections will be lost (rule defaults are saved before restarting)."@,
    }
}

/// The words on restarting as administrator.
pub fn elevate_confirm_text(lang: Lang) -> (r: &'static str)
    ensures
        r@ == elevate_words(lang),
{
    match lang {
        Lang::Ja => "pc-cleaner を管理者権限で起動し直します。\nUAC の確認画面で「はい」を選択してください。\n\n現在のウィンドウは終了し、走査結果と未保存の選択は失われます（ルール別の既定は保存してから起動し直します）。",
        Lang::En => "pc-cleaner will restart with administrator privileges.\nPlease select \"Yes\" on the UAC prompt.\n\nThe current window will close, and scan results and unsaved selections will be lost (rule defaults are saved before restarting).",
    }
}

// ---- Rules and entries ----

/// The rules that administrator rights are missing for.
pub open spec fn out_of_reach_when(elevated: bool) -> spec_fn(RuleView) -> bool {
    |r: RuleView| !r.permitted(elevated)
}

/// The rules that administrator rights are missing for, in their order.
pub fn future_rules(rules: &[Rule], elevated: bool) -> (r: Vec<Rule>)
    ensures
        rule_views(r@) == rule_views(rules@).filter(out_of_reach_when(elevated)),
{
    let ghost all = rule_views(rules@);
    let ghost keep = out_of_reach_when(elevated);
    let mut r: Vec<Rule> = Vec::new();
    let mut i: usize = 0;
    assert(rule_views(r@) =~= all.take(0).filter(keep)) by {
        reveal(Seq::filter);
    }
    while i < rules.len()
        invariant
            i <= rules@.len(),
            all == rule_views(rules@),
            keep == out_of_reach_when(elevated),
            rule_views(r@) == all.take(i as int).filter(keep),
        decreases rules@.len() - i,
    {
        let rule = &rules[i];
        proof {
            assert(all.take(i + 1) =~= all.take(i as int).push(rule@));
            all.take(i as int).lemma_filter_push(rule@, keep);
        }
        if !rule.is_permitted(elevated) {
            let copy = rule.clone();
            proof {
                views_of_push(r@, copy);
            }
            r.push(copy);
        }
        i = i + 1;
    }
    assert(all.take(i as int) =~= all);
    r
}

/// Each rule is either scanned or shown as out of reach: the two lists have all
/// rules between them, and no rule is in both.
pub proof fn future_and_scannable_are_complements(rules: Seq<RuleView>, elevated: bool)
    ensures
        rules.filter(permitted_when(elevated)).len() + rules.filter(
            out_of_reach_when(elevated),
        ).len() == rules.len(),
        forall|rule: RuleView| #[trigger]
            rules.contains(rule) ==> (rules.filter(permitted_when(elevated)).contains(rule)
                != rules.filter(out_of_reach_when(elevated)).contains(rule)),
    decreases rules.len(),
{
    parts_have_all(rules, elevated);
    assert forall|rule: RuleView| #[trigger] rules.contains(rule) implies (rules.filter(
        permitted_when(elevated),
    ).contains(rule) != rules.filter(out_of_reach_when(elevated)).contains(rule)) by {
        let i = choose|i: int| 0 <= i < rules.len() && rules[i] == rule;
        let yes = rules.filter(permitted_when(elevated));
        let no = rules.filter(out_of_reach_when(elevated));
        if permitted_when(elevated)(rule) {
            rules.lemma_filter_contains(permitted_when(elevated), i);
            if no.contains(rule) {
                let k = choose|k: int| 0 <= k < no.len() && no[k] == rule;
                rules.lemma_filter_pred(out_of_reach_when(elevated), k);
            }
        } else {
            rules.lemma_filter_contains(out_of_reach_when(elevated), i);
            if yes.contains(rule) {
                let k = choose|k: int| 0 <= k < yes.len() && yes[k] == rule;
                rules.lemma_filter_pred(permitted_when(elevated), k);
            }
        }
    }
}

proof fn parts_have_all(rules: Seq<RuleView>, elevated: bool)
    ensures
        rules.filter(permitted_when(elevated)).len() + rules.filter(
            out_of_reach_when(elevated),
        ).len() == rules.len(),
    decreases rules.len(),
{
    reveal(Seq::filter);
    if rules.len() > 0 {
        parts_have_all(rules.drop_last(), elevated);
    }
}

/// An entry of the rule `rule_id` as the user wants it; any other entry as it
/// is.
pub open spec fn with_pref_of(rule_id: Seq<char>, config: Config) -> spec_fn(
    ScanEntryView,
) -> ScanEntryView {
    |e: ScanEntryView|
        if e.rule_id == rule_id {
            with_pref(e, config)
        } else {
            e
        }
}

/// Selects the entries of the rule `rule_id` as the user wants them. What the
/// user chose by hand for other rules stays.
pub fn reapply_pref_for_rule(entries: &mut Vec<ScanEntry>, rule_id: &str, config: &Config)
    ensures
        entry_views(final(entries)@) == entry_views(old(entries)@).map_values(
            with_pref_of(rule_id@, *config),
        ),
{
    let ghost before = entry_views(entries@);
    let ghost f = with_pref_of(rule_id@, *config);
    let n: usize = entries.len();
    let mut i: usize = 0;
    while i < n
        invariant
            i <= n,
            n == entries@.len(),
            n == before.len(),
            f == with_pref_of(rule_id@, *config),
            forall|j: int| 0 <= j < i ==> (#[trigger] entries@[j])@ == f(before[j]),
            forall|j: int| i <= j < n ==> (#[trigger] entries@[j])@ == before[j],
        decreases n - i,
    {
        if same_text(entries[i].rule_id.as_str(), rule_id) {
            let mut entry = entries[i].clone();
            entry.selected = wanted(&entry, config);
            entries.set(i, entry);
        }
        i = i + 1;
    }
    assert(entry_views(entries@) =~= before.map_values(f));
}

/// What is shown beside an excluded entry, by its place.
pub open spec fn exclusion_note(lang: Lang) -> spec_fn(ExcludedEntryView) -> Option<
    (FilePathView, Seq<char>),
> {
    |e: ExcludedEntryView|
        match exclusion_words(e.reason, lang) {
            Some(words) => Some((e.path, words)),
            None => None,
        }
}

/// The values of a list of notes.
pub open spec fn note_views(notes: Seq<(FilePath, &'static str)>) -> Seq<(FilePathView, Seq<char>)> {
    notes.map_values(|n: (FilePath, &'static str)| (n.0@, n.1@))
}

/// What is shown beside the excluded entries, by their places.
pub fn to_exclusion_map(excluded: &[ExcludedEntry], lang: Lang) -> (r: Vec<
    (FilePath, &'static str),
>)
    ensures
        note_views(r@) == excluded_views(excluded@).filter_map(exclusion_note(lang)),
{
    let ghost all = excluded_views(excluded@);
    let ghost f = exclusion_note(lang);
    let mut r: Vec<(FilePath, &'static str)> = Vec::new();
    let mut i: usize = 0;
    assert(note_views(r@) =~= all.take(0).filter_map(f));
    while i < excluded.len()
        invariant
            i <= excluded@.len(),
            all == excluded_views(excluded@),
            f == exclusion_note(lang),
            note_views(r@) == all.take(i as int).filter_map(f),
        decreases excluded@.len() - i,
    {
        let ghost before = r@;
        proof {
            all.lemma_filter_map_take_succ(f, i as int);
        }
        match exclusion_label(excluded[i].reason, lang) {
            Some(words) => {
                r.push((excluded[i].path.clone(), words));
                assert(note_views(r@) =~= note_views(before).push(f(all[i as int])->0));
            },
            None => {},
        }
        i = i + 1;
        assert(note_views(r@) =~= all.take(i as int).filter_map(f));
    }
    assert(all.take(i as int) =~= all);
    r
}

/// The last note for a place, if there is one.
pub open spec fn last_note(notes: Seq<(FilePathView, Seq<char>)>, path: FilePathView) -> Option<
    Seq<char>,
>
    decreases notes.len(),
{
    if notes.len() == 0 {
        None
    } else if notes.last().0.parts == path.parts {
        Some(notes.last().1)
    } else {
        last_note(notes.drop_last(), path)
    }
}

/// The note for a place, the last one where there are several.
pub fn note_for(notes: &Vec<(FilePath, &'static str)>, path: &FilePath) -> (r: Option<
    &'static str,
>)
    ensures
        words_value(r) == last_note(note_views(notes@), path@),
{
    let ghost all = note_views(notes@);
    let mut i: usize = notes.len();
    assert(all.take(i as int) =~= all);
    while i > 0
        invariant
            i <= notes@.len(),
            all == note_views(notes@),
            last_note(all, path@) == last_note(all.take(i as int), path@),
        decreases i,
    {
        i = i - 1;
        assert(all.take(i + 1).drop_last() =~= all.take(i as int));
        assert(all.take(i + 1).last() == all[i as int]);
        if notes[i].0.same_place(path) {
            return Some(notes[i].1);
        }
    }
    None
}

/// The arguments of a process that is started again as administrator: those of
/// this process, marked once.
pub open spec fn marked_once(args: Seq<Seq<char>>) -> Seq<Seq<char>> {
    if args.contains("--elevated"@) {
        args
    } else {
        args.push("--elevated"@)
    }
}

/// The arguments of a process that is started again as administrator: those of
/// this process, marked once.
pub fn relaunch_args(current: &[String]) -> (r: Vec<String>)
    ensures
        texts_of(r@) == marked_once(texts_of(current@)),
{
    let mut args = copy_texts(current);
    let ghost before = args@;
    if !is_listed(current, "--elevated") {
        args.push("--elevated".to_owned());
        assert(texts_of(args@) =~= texts_of(before).push("--elevated"@));
    }
    args
}

/// Marking arguments a second time changes nothing.
pub proof fn marking_is_idempotent(args: Seq<Seq<char>>)
    ensures
        marked_once(marked_once(args)) == marked_once(args),
{
    if !args.contains("--elevated"@) {
        assert(args.push("--elevated"@)[args.len() as int] == "--elevated"@);
    }
}

// ---- Failures ----

/// A failure: where, and what was said of it.
pub type FailureView = (FilePathView, Seq<char>);

/// The values of a list of failures.
pub open spec fn failure_views(failures: Seq<(FilePath, String)>) -> Seq<FailureView> {
    failures.map_values(|f: (FilePath, String)| (f.0@, f.1@))
}

/// The values of a list of paths.
pub open spec fn path_views(paths: Seq<FilePath>) -> Seq<FilePathView> {
    paths.map_values(|p: FilePath| p@)
}

/// The values of a list of groups.
pub open spec fn group_views(groups: Seq<(String, Vec<FilePath>)>) -> Seq<
    (Seq<char>, Seq<FilePathView>),
> {
    groups.map_values(|g: (String, Vec<FilePath>)| (g.0@, path_views(g.1@)))
}

/// The messages of the failures, each once, in the order in which they first
/// come.
pub open spec fn messages(failures: Seq<FailureView>) -> Seq<Seq<char>>
    decreases failures.len(),
{
    if failures.len() == 0 {
        Seq::empty()
    } else {
        let before = messages(failures.drop_last());
        if before.contains(failures.last().1) {
            before
        } else {
            before.push(failures.last().1)
        }
    }
}

/// Where a failure with the given message is.
pub open spec fn place_if(message: Seq<char>) -> spec_fn(FailureView) -> Option<FilePathView> {
    |f: FailureView|
        if f.1 == message {
            Some(f.0)
        } else {
            None
        }
}

/// The group of a message.
pub open spec fn group_of(failures: Seq<FailureView>) -> spec_fn(Seq<char>) -> (
    Seq<char>,
    Seq<FilePathView>,
) {
    |m: Seq<char>| (m, failures.filter_map(place_if(m)))
}

/// The groups, in the order in which their messages first come.
pub open spec fn groups_in_order(failures: Seq<FailureView>) -> Seq<
    (Seq<char>, Seq<FilePathView>),
> {
    messages(failures).map_values(group_of(failures))
}

/// The groups with `n` failures.
pub open spec fn has_count(n: nat) -> spec_fn((Seq<char>, Seq<FilePathView>)) -> bool {
    |g: (Seq<char>, Seq<FilePathView>)| g.1.len() == n
}

/// The groups with `n` failures or fewer, the largest first. Groups of one size
/// keep their order.
pub open spec fn largest_first(groups: Seq<(Seq<char>, Seq<FilePathView>)>, n: nat) -> Seq<
    (Seq<char>, Seq<FilePathView>),
>
    decreases n,
{
    if n == 0 {
        Seq::empty()
    } else {
        groups.filter(has_count(n)) + largest_first(groups, (n - 1) as nat)
    }
}

/// The failures by message, the largest group first.
pub open spec fn grouped(failures: Seq<FailureView>) -> Seq<(Seq<char>, Seq<FilePathView>)> {
    largest_first(groups_in_order(failures), failures.len())
}

fn list_messages(failures: &[(FilePath, String)]) -> (r: Vec<String>)
    ensures
        texts_of(r@) == messages(failure_views(failures@)),
{
    let ghost all = failure_views(failures@);
    let mut r: Vec<String> = Vec::new();
    let mut i: usize = 0;
    assert(texts_of(r@) =~= messages(all.take(0)));
    while i < failures.len()
        invariant
            i <= failures@.len(),
            all == failure_views(failures@),
            texts_of(r@) == messages(all.take(i as int)),
        decreases failures@.len() - i,
    {
        let ghost before = r@;
        assert(all.take(i + 1).drop_last() =~= all.take(i as int));
        assert(all.take(i + 1).last() == all[i as int]);
        if !is_listed(&r, failures[i].1.as_str()) {
            r.push(failures[i].1.clone());
            assert(texts_of(r@) =~= texts_of(before).push(all[i as int].1));
        }
        i = i + 1;
    }
    assert(all.take(i as int) =~= all);
    r
}

fn places_with(failures: &[(FilePath, String)], message: &str) -> (r: Vec<FilePath>)
    ensures
        path_views(r@) == failure_views(failures@).filter_map(place_if(message@)),
{
    let ghost all = failure_views(failures@);
    let ghost f = place_if(message@);
    let mut r: Vec<FilePath> = Vec::new();
    let mut i: usize = 0;
    assert(path_views(r@) =~= all.take(0).filter_map(f));
    while i < failures.len()
        invariant
            i <= failures@.len(),
            all == failure_views(failures@),
            f == place_if(message@),
            path_views(r@) == all.take(i as int).filter_map(f),
        decreases failures@.len() - i,
    {
        let ghost before = r@;
        proof {
            all.lemma_filter_map_take_succ(f, i as int);
        }
        if same_text(failures[i].1.as_str(), message) {
            r.push(failures[i].0.clone());
            assert(path_views(r@) =~= path_views(before).push(all[i as int].0));
        }
        i = i + 1;
        assert(path_views(r@) =~= all.take(i as int).filter_map(f));
    }
    assert(all.take(i as int) =~= all);
    r
}

fn list_groups(failures: &[(FilePath, String)]) -> (r: Vec<(String, Vec<FilePath>)>)
    ensures
        group_views(r@) == groups_in_order(failure_views(failures@)),
{
    let ghost all = failure_views(failures@);
    let list = list_messages(failures);
    let mut r: Vec<(String, Vec<FilePath>)> = Vec::new();
    let mut i: usize = 0;
    while i < list.len()
        invariant
            i <= list@.len(),
            all == failure_views(failures@),
            texts_of(list@) == messages(all),
            r@.len() == i,
            forall|j: int|
                0 <= j < i ==> #[trigger] group_views(r@)[j] == group_of(all)(messages(all)[j]),
        decreases list@.len() - i,
    {
        let ghost before = r@;
        let places = places_with(failures, list[i].as_str());
        assert(list@[i as int]@ == texts_of(list@)[i as int]);
        r.push((list[i].clone(), places));
        i = i + 1;
        assert forall|j: int| 0 <= j < i implies #[trigger] group_views(r@)[j] == group_of(all)(
            messages(all)[j],
        ) by {
            if j < i - 1 {
                assert(group_views(r@)[j] == group_views(before)[j]);
            }
        }
    }
    assert(group_views(r@) =~= groups_in_order(all));
    r
}

fn copy_paths(paths: &Vec<FilePath>) -> (r: Vec<FilePath>)
    ensures
        path_views(r@) == path_views(paths@),
{
    let mut r: Vec<FilePath> = Vec::new();
    let mut i: usize = 0;
    while i < paths.len()
        invariant
            i <= paths@.len(),
            r@.len() == i,
            forall|j: int| 0 <= j < i ==> (#[trigger] r@[j])@ == paths@[j]@,
        decreases paths@.len() - i,
    {
        r.push(paths[i].clone());
        i = i + 1;
    }
    assert(path_views(r@) =~= path_views(paths@));
    r
}

fn push_groups_of_size(
    r: &mut Vec<(String, Vec<FilePath>)>,
    groups: &Vec<(String, Vec<FilePath>)>,
    n: usize,
)
    ensures
        group_views(final(r)@) == group_views(old(r)@) + group_views(groups@).filter(
            has_count(n as nat),
        ),
{
    let ghost before = group_views(r@);
    let ghost all = group_views(groups@);
    let ghost keep = has_count(n as nat);
    let mut i: usize = 0;
    assert(all.take(0).filter(keep) =~= Seq::empty()) by {
        reveal(Seq::filter);
    }
    assert(group_views(r@) =~= before + all.take(0).filter(keep));
    while i < groups.len()
        invariant
            i <= groups@.len(),
            all == group_views(groups@),
            keep == has_count(n as nat),
            group_views(r@) == before + all.take(i as int).filter(keep),
        decreases groups@.len() - i,
    {
        let ghost so_far = r@;
        let group = &groups[i];
        proof {
            assert(all.take(i + 1) =~= all.take(i as int).push(all[i as int]));
            all.take(i as int).lemma_filter_push(all[i as int], keep);
        }
        if group.1.len() == n {
            r.push((group.0.clone(), copy_paths(&group.1)));
            assert(group_views(r@) =~= group_views(so_far).push(all[i as int]));
        }
        i = i + 1;
        assert(group_views(r@) =~= before + all.take(i as int).filter(keep));
    }
    assert(all.take(i as int) =~= all);
}

/// The failures by message, the largest group first: many failures mostly have
/// one cause. Groups of one size keep the order in which they first come.
pub fn group_failures(failures: &[(FilePath, String)]) -> (r: Vec<(String, Vec<FilePath>)>)
    ensures
        group_views(r@) == grouped(failure_views(failures@)),
{
    let groups = list_groups(failures);
    let ghost all = group_views(groups@);
    let mut r: Vec<(String, Vec<FilePath>)> = Vec::new();
    let mut n: usize = failures.len();
    assert(group_views(r@) + largest_first(all, n as nat) =~= largest_first(all, n as nat));
    while n > 0
        invariant
            n <= failures@.len(),
            all == group_views(groups@),
            group_views(r@) + largest_first(all, n as nat) == largest_first(
                all,
                failures@.len() as nat,
            ),
        decreases n,
    {
        let ghost before = group_views(r@);
        push_groups_of_size(&mut r, &groups, n);
        assert(group_views(r@) + largest_first(all, (n - 1) as nat) =~= before + largest_first(
            all,
            n as nat,
        ));
        n = n - 1;
    }
    assert(group_views(r@) =~= group_views(r@) + largest_first(all, 0));
    r
}

proof fn largest_first_is_sorted(groups: Seq<(Seq<char>, Seq<FilePathView>)>, n: nat)
    ensures
        forall|i: int|
            0 <= i < largest_first(groups, n).len() ==> (#[trigger] largest_first(
                groups,
                n,
            )[i]).1.len() <= n,
        forall|i: int, j: int|
            0 <= i <= j < largest_first(groups, n).len() ==> (#[trigger] largest_first(
                groups,
                n,
            )[i]).1.len() >= (#[trigger] largest_first(groups, n)[j]).1.len(),
    decreases n,
{
    if n > 0 {
        let m = (n - 1) as nat;
        let rest = largest_first(groups, m);
        let first = groups.filter(has_count(n));
        let all = largest_first(groups, n);
        largest_first_is_sorted(groups, m);
        assert forall|i: int| 0 <= i < first.len() implies (#[trigger] first[i]).1.len() == n by {
            groups.lemma_filter_pred(has_count(n), i);
        }
        assert forall|i: int| 0 <= i < all.len() implies (#[trigger] all[i]).1.len() <= n by {
            if i >= first.len() {
                assert(all[i] == rest[i - first.len()]);
            } else {
                assert(all[i] == first[i]);
            }
        }
        assert forall|i: int, j: int| 0 <= i <= j < all.len() implies (#[trigger] all[i]).1.len()
            >= (#[trigger] all[j]).1.len() by {
            if i < first.len() {
                assert(all[i] == first[i]);
            } else {
                assert(all[i] == rest[i - first.len()]);
                assert(all[j] == rest[j - first.len()]);
            }
        }
    }
}

/// The groups of failures come largest first.
pub proof fn groups_come_largest_first(failures: Seq<FailureView>, i: int, j: int)
    requires
        0 <= i <= j < grouped(failures).len(),
    ensures
        grouped(failures)[i].1.len() >= grouped(failures)[j].1.len(),
{
    largest_first_is_sorted(groups_in_order(failures), failures.len());
}

proof fn messages_have_each(failures: Seq<FailureView>, k: int)
    requires
        0 <= k < failures.len(),
    ensures
        messages(failures).contains(failures[k].1),
    decreases failures.len(),
{
    let front = failures.drop_last();
    let before = messages(front);
    if k < front.len() {
        messages_have_each(front, k);
        assert(front[k] == failures[k]);
        let m = choose|m: int| 0 <= m < before.len() && before[m] == failures[k].1;
        if !before.contains(failures.last().1) {
            assert(before.push(failures.last().1)[m] == failures[k].1);
        }
    } else if !before.contains(failures.last().1) {
        assert(before.push(failures.last().1)[before.len() as int] == failures.last().1);
    }
}

proof fn place_is_listed(failures: Seq<FailureView>, message: Seq<char>, k: int)
    requires
        0 <= k < failures.len(),
        failures[k].1 == message,
    ensures
        failures.filter_map(place_if(message)).contains(failures[k].0),
        failures.filter_map(place_if(message)).len() <= failures.len(),
    decreases failures.len(),
{
    let f = place_if(message);
    let front = failures.drop_last();
    let listed = front.filter_map(f);
    assert(failures.take(failures.len() - 1) =~= front);
    assert(failures.take(failures.len() as int) =~= failures);
    failures.lemma_filter_map_take_succ(f, failures.len() - 1);
    places_are_few(front, message);
    if k < front.len() {
        place_is_listed(front, message, k);
        let m = choose|m: int| 0 <= m < listed.len() && listed[m] == failures[k].0;
        assert(failures.filter_map(f)[m] == failures[k].0);
    } else {
        assert(failures.filter_map(f) =~= listed.push(failures[k].0));
        assert(failures.filter_map(f)[listed.len() as int] == failures[k].0);
    }
}

proof fn places_are_few(failures: Seq<FailureView>, message: Seq<char>)
    ensures
        failures.filter_map(place_if(message)).len() <= failures.len(),
    decreases failures.len(),
{
    if failures.len() > 0 {
        places_are_few(failures.drop_last(), message);
        assert(failures.take(failures.len() - 1) =~= failures.drop_last());
        assert(failures.take(failures.len() as int) =~= failures);
        failures.lemma_filter_map_take_succ(place_if(message), failures.len() - 1);
    }
}

proof fn largest_first_has_all(
    groups: Seq<(Seq<char>, Seq<FilePathView>)>,
    n: nat,
    group: (Seq<char>, Seq<FilePathView>),
)
    requires
        groups.contains(group),
        0 < group.1.len() <= n,
    ensures
        largest_first(groups, n).contains(group),
    decreases n,
{
    let first = groups.filter(has_count(n));
    let rest = largest_first(groups, (n - 1) as nat);
    if group.1.len() == n {
        let i = choose|i: int| 0 <= i < groups.len() && groups[i] == group;
        groups.lemma_filter_contains(has_count(n), i);
        let k = choose|k: int| 0 <= k < first.len() && first[k] == group;
        assert((first + rest)[k] == group);
    } else {
        largest_first_has_all(groups, (n - 1) as nat, group);
        let k = choose|k: int| 0 <= k < rest.len() && rest[k] == group;
        assert((first + rest)[first.len() + k] == group);
    }
}

/// No failure is lost: the group of its message is there, and the failure's
/// path is in it.
pub proof fn every_failure_is_grouped(failures: Seq<FailureView>, k: int)
    requires
        0 <= k < failures.len(),
    ensures
        grouped(failures).contains(group_of(failures)(failures[k].1)),
        group_of(failures)(failures[k].1).1.contains(failures[k].0),
{
    let message = failures[k].1;
    let group = group_of(failures)(message);
    messages_have_each(failures, k);
    place_is_listed(failures, message, k);
    let m = choose|m: int| 0 <= m < messages(failures).len() && messages(failures)[m] == message;
    assert(groups_in_order(failures)[m] == group);
    largest_first_has_all(groups_in_order(failures), failures.len(), group);
}

// ---- Rows ----

/// One row of a breakdown. The bar beside it shows `part` of `whole`.
#[derive(Debug, PartialEq, Eq)]
pub struct BreakdownRow {
    /// The name of the rule or the range.
    pub label: String,
    /// How many items, and how much they take.
    pub detail: String,
    /// The bytes of the row.
    pub part: u64,
    /// The bytes of all rows.
    pub whole: u64,
}

/// The value of a [`BreakdownRow`].
#[verifier::ext_equal]
pub struct BreakdownRowView {
    pub label: Seq<char>,
    pub detail: Seq<char>,
    pub part: u64,
    pub whole: u64,
}

impl View for BreakdownRow {
    type V = BreakdownRowView;

    open spec fn view(&self) -> BreakdownRowView {
        BreakdownRowView {
            label: self.label@,
            detail: self.detail@,
            part: self.part,
            whole: self.whole,
        }
    }
}

/// The values of a list of rows.
pub open spec fn row_views(rows: Seq<BreakdownRow>) -> Seq<BreakdownRowView> {
    rows.map_values(|r: BreakdownRow| r@)
}

/// How many items, and how much they take.
pub open spec fn amount_words(item_count: nat, total_size: nat, lang: Lang) -> Seq<char> {
    match lang {
        Lang::Ja => decimal(item_count) + " 件 / "@ + size_text(total_size),
        Lang::En => decimal(item_count) + " items / "@ + size_text(total_size),
    }
}

fn amount_text(item_count: usize, total_size: u64, lang: Lang) -> (r: String)
    ensures
        r@ == amount_words(item_count as nat, total_size as nat, lang),
{
    let mut r = String::new();
    push_decimal(&mut r, item_count as u64);
    match lang {
        Lang::Ja => r.append(" 件 / "),
        Lang::En => r.append(" items / "),
    }
    r.append(human_size(total_size).as_str());
    assert(r@ =~= amount_words(item_count as nat, total_size as nat, lang));
    r
}

/// The row of a rule.
pub open spec fn category_row(rules: Seq<RuleView>, whole: u64, lang: Lang) -> spec_fn(
    CategoryView,
) -> BreakdownRowView {
    |c: CategoryView|
        BreakdownRowView {
            label: label_of(rules, c.rule_id),
            detail: amount_words(c.item_count, c.total_size, lang),
            part: c.total_size as u64,
            whole,
        }
}

/// The rows by rule. A rule that is not among `rules` is shown by its id.
pub fn category_rows(
    breakdown: &[CategoryBreakdown],
    rules: &[Rule],
    total_size: u64,
    lang: Lang,
) -> (r: Vec<BreakdownRow>)
    ensures
        row_views(r@) == category_views(breakdown@).map_values(
            category_row(rule_views(rules@), total_size, lang),
        ),
{
    let ghost f = category_row(rule_views(rules@), total_size, lang);
    let mut r: Vec<BreakdownRow> = Vec::new();
    let mut i: usize = 0;
    while i < breakdown.len()
        invariant
            i <= breakdown@.len(),
            f == category_row(rule_views(rules@), total_size, lang),
            r@.len() == i,
            forall|j: int| 0 <= j < i ==> (#[trigger] r@[j])@ == f(breakdown@[j]@),
        decreases breakdown@.len() - i,
    {
        let c = &breakdown[i];
        let (label, _) = rule_lookup(rules, c.rule_id.as_str());
        let detail = amount_text(c.item_count, c.total_size, lang);
        r.push(BreakdownRow { label, detail, part: c.total_size, whole: total_size });
        i = i + 1;
    }
    assert(row_views(r@) =~= category_views(breakdown@).map_values(f));
    r
}

/// The row of a range of sizes. A range without items has none.
pub open spec fn bucket_row(whole: u64, lang: Lang) -> spec_fn(BucketBreakdown) -> Option<
    BreakdownRowView,
> {
    |b: BucketBreakdown|
        if b.item_count == 0 {
            None
        } else {
            Some(
                BreakdownRowView {
                    label: b.bucket.words_in(lang),
                    detail: amount_words(b.item_count as nat, b.total_size as nat, lang),
                    part: b.total_size,
                    whole,
                },
            )
        }
}

/// The rows by size. Ranges without items are left out.
pub fn bucket_rows(breakdown: &[BucketBreakdown], total_size: u64, lang: Lang) -> (r: Vec<
    BreakdownRow,
>)
    ensures
        row_views(r@) == breakdown@.filter_map(bucket_row(total_size, lang)),
{
    let ghost f = bucket_row(total_size, lang);
    let mut r: Vec<BreakdownRow> = Vec::new();
    let mut i: usize = 0;
    assert(row_views(r@) =~= breakdown@.take(0).filter_map(f));
    while i < breakdown.len()
        invariant
            i <= breakdown@.len(),
            f == bucket_row(total_size, lang),
            row_views(r@) == breakdown@.take(i as int).filter_map(f),
        decreases breakdown@.len() - i,
    {
        let ghost before = r@;
        let b = &breakdown[i];
        proof {
            breakdown@.lemma_filter_map_take_succ(f, i as int);
        }
        if b.item_count > 0 {
            let detail = amount_text(b.item_count, b.total_size, lang);
            let row = BreakdownRow {
                label: b.bucket.label_in(lang).to_owned(),
                detail,
                part: b.total_size,
                whole: total_size,
            };
            r.push(row);
            assert(row_views(r@) =~= row_views(before).push(row@));
        }
        i = i + 1;
        assert(row_views(r@) =~= breakdown@.take(i as int).filter_map(f));
    }
    assert(breakdown@.take(i as int) =~= breakdown@);
    r
}

/// One row of the list of runs.
#[derive(Debug, PartialEq, Eq)]
pub struct HistoryRow {
    /// How long ago it was.
    pub when: String,
    /// What it freed.
    pub summary: String,
    /// The run; zero where it cannot be undone.
    pub run_id: u64,
}

/// The value of a [`HistoryRow`].
#[verifier::ext_equal]
pub struct HistoryRowView {
    pub when: Seq<char>,
    pub summary: Seq<char>,
    pub run_id: u64,
}

impl View for HistoryRow {
    type V = HistoryRowView;

    open spec fn view(&self) -> HistoryRowView {
        HistoryRowView { when: self.when@, summary: self.summary@, run_id: self.run_id }
    }
}

/// The values of a list of rows.
pub open spec fn history_row_views(rows: Seq<HistoryRow>) -> Seq<HistoryRowView> {
    rows.map_values(|r: HistoryRow| r@)
}

/// The seconds from `then` to `now`, none where `then` is later.
pub open spec fn seconds_since(then: u64, now: u64) -> nat {
    if then <= now {
        (now - then) as nat
    } else {
        0
    }
}

fn since(then: u64, now: u64) -> (r: u64)
    ensures
        r == seconds_since(then, now),
{
    if then <= now {
        now - then
    } else {
        0
    }
}

/// What a run freed, in words.
pub open spec fn run_words(entry: HistoryEntry, lang: Lang) -> Seq<char> {
    match lang {
        Lang::Ja => size_text(entry.freed_bytes as nat) + " 解放 / "@ + decimal(
            entry.deleted_count as nat,
        ) + " 件"@ + if entry.permanent {
            "（完全削除）"@
        } else {
            ""@
        },
        Lang::En => size_text(entry.freed_bytes as nat) + " freed / "@ + decimal(
            entry.deleted_count as nat,
        ) + " items"@ + if entry.permanent {
            " (permanently deleted)"@
        } else {
            ""@
        },
    }
}

fn run_text(entry: &HistoryEntry, lang: Lang) -> (r: String)
    ensures
        r@ == run_words(*entry, lang),
{
    let mut r = human_size(entry.freed_bytes);
    match lang {
        Lang::Ja => r.append(" 解放 / "),
        Lang::En => r.append(" freed / "),
    }
    push_decimal(&mut r, entry.deleted_count as u64);
    match lang {
        Lang::Ja => r.append(" 件"),
        Lang::En => r.append(" items"),
    }
    if entry.permanent {
        match lang {
            Lang::Ja => r.append("（完全削除）"),
            Lang::En => r.append(" (permanently deleted)"),
        }
    } else {
        r.append("");
    }
    r
}

/// The row of a run.
pub open spec fn history_row(now_secs: u64, lang: Lang) -> spec_fn(HistoryEntry) -> HistoryRowView {
    |e: HistoryEntry|
        HistoryRowView {
            when: ago_words(seconds_since(e.timestamp_secs, now_secs), lang),
            summary: run_words(e, lang),
            run_id: e.run_id,
        }
}

/// The rows of the newest runs, `limit` at most, the newest first.
pub fn history_rows(history: &History, now_secs: u64, limit: usize, lang: Lang) -> (r: Vec<
    HistoryRow,
>)
    ensures
        history_row_views(r@) == newest_first(history.entries@, limit as nat).map_values(
            history_row(now_secs, lang),
        ),
{
    let ghost f = history_row(now_secs, lang);
    let recent = history.recent(limit);
    let ghost newest = newest_first(history.entries@, limit as nat);
    let mut r: Vec<HistoryRow> = Vec::new();
    let mut i: usize = 0;
    while i < recent.len()
        invariant
            i <= recent@.len(),
            f == history_row(now_secs, lang),
            newest == recent@.map_values(|e: &HistoryEntry| *e),
            r@.len() == i,
            forall|j: int| 0 <= j < i ==> (#[trigger] r@[j])@ == f(newest[j]),
        decreases recent@.len() - i,
    {
        let entry = recent[i];
        assert(newest[i as int] == *entry);
        r.push(
            HistoryRow {
                when: relative_days_in(since(entry.timestamp_secs, now_secs), lang),
                summary: run_text(entry, lang),
                run_id: entry.run_id,
            },
        );
        i = i + 1;
    }
    assert(history_row_views(r@) =~= newest.map_values(f));
    r
}

/// One row of the deletion log.
#[derive(Debug, PartialEq, Eq)]
pub struct AuditRow {
    /// How long ago it was.
    pub when: String,
    /// The rule, the size and what became of it.
    pub summary: String,
    /// Where it was.
    pub path: String,
}

/// The value of an [`AuditRow`].
#[verifier::ext_equal]
pub struct AuditRowView {
    pub when: Seq<char>,
    pub summary: Seq<char>,
    pub path: Seq<char>,
}

impl View for AuditRow {
    type V = AuditRowView;

    open spec fn view(&self) -> AuditRowView {
        AuditRowView { when: self.when@, summary: self.summary@, path: self.path@ }
    }
}

/// The values of a list of rows.
pub open spec fn audit_row_views(rows: Seq<AuditRow>) -> Seq<AuditRowView> {
    rows.map_values(|r: AuditRow| r@)
}

/// What became of an item, in words. The text of a failure is shown as it is.
pub open spec fn outcome_words(outcome: ItemOutcomeView, lang: Lang) -> Seq<char> {
    match (outcome, lang) {
        (ItemOutcomeView::Deleted, Lang::Ja) => "削除"@,
        (ItemOutcomeView::Deleted, Lang::En) => "Deleted"@,
        (ItemOutcomeView::Failed { message }, Lang::Ja) => "失敗（"@ + message + "）"@,
        (ItemOutcomeView::Failed { message }, Lang::En) => "Failed ("@ + message + ")"@,
        (ItemOutcomeView::Missing, Lang::Ja) => "対象なし"@,
        (ItemOutcomeView::Missing, Lang::En) => "Not found"@,
        (ItemOutcomeView::NotAttempted, Lang::Ja) => "未実行"@,
        (ItemOutcomeView::NotAttempted, Lang::En) => "Not attempted"@,
    }
}

/// What became of an item, in words.
pub fn outcome_text(outcome: &ItemOutcome, lang: Lang) -> (r: String)
    ensures
        r@ == outcome_words(outcome@, lang),
{
    match (outcome, lang) {
        (ItemOutcome::Deleted, Lang::Ja) => "削除".to_owned(),
        (ItemOutcome::Deleted, Lang::En) => "Deleted".to_owned(),
        (ItemOutcome::Failed { message }, Lang::Ja) => surrounded("失敗（", message.as_str(), "）"),
        (ItemOutcome::Failed { message }, Lang::En) => surrounded("Failed (", message.as_str(), ")"),
        (ItemOutcome::Missing, Lang::Ja) => "対象なし".to_owned(),
        (ItemOutcome::Missing, Lang::En) => "Not found".to_owned(),
        (ItemOutcome::NotAttempted, Lang::Ja) => "未実行".to_owned(),
        (ItemOutcome::NotAttempted, Lang::En) => "Not attempted".to_owned(),
    }
}

/// The row of a record.
pub open spec fn audit_row(now_secs: u64, lang: Lang) -> spec_fn(AuditRecordView) -> AuditRowView {
    |a: AuditRecordView|
        AuditRowView {
            when: ago_words(seconds_since(a.timestamp_secs, now_secs), lang),
            summary: a.rule_id + " "@ + size_text(a.size as nat) + " "@ + outcome_words(
                a.outcome,
                lang,
            ),
            path: a.path.text,
        }
}

/// The rows of the newest records, `limit` at most, the newest first.
pub fn audit_rows(records: &[AuditRecord], now_secs: u64, limit: usize, lang: Lang) -> (r: Vec<
    AuditRow,
>)
    ensures
        audit_row_views(r@) == newest_first(record_views(records@), limit as nat).map_values(
            audit_row(now_secs, lang),
        ),
{
    let ghost f = audit_row(now_secs, lang);
    let ghost all = record_views(records@);
    let n: usize = records.len();
    let shown: usize = if limit < n {
        limit
    } else {
        n
    };
    let mut r: Vec<AuditRow> = Vec::new();
    let mut i: usize = 0;
    while i < shown
        invariant
            i <= shown <= n,
            n == records@.len(),
            all == record_views(records@),
            f == audit_row(now_secs, lang),
            r@.len() == i,
            forall|j: int| 0 <= j < i ==> (#[trigger] r@[j])@ == f(all[n - 1 - j]),
        decreases shown - i,
    {
        let record = &records[n - 1 - i];
        let mut summary = record.rule_id.clone();
        summary.append(" ");
        summary.append(human_size(record.size).as_str());
        summary.append(" ");
        summary.append(outcome_text(&record.outcome, lang).as_str());
        r.push(
            AuditRow {
                when: relative_days_in(since(record.timestamp_secs, now_secs), lang),
                summary,
                path: record.path.text.clone(),
            },
        );
        i = i + 1;
    }
    assert(audit_row_views(r@) =~= newest_first(all, limit as nat).map_values(f));
    r
}

// ---- What is shown ----

/// An entry is called large if and only if its rule has a limit that it reaches.
pub proof fn which_entries_are_called_large(size: u64, threshold: Option<u64>, lang: Lang)
    ensures
        large_file_note(size, threshold, lang) is Some <==> threshold is Some && size
            >= threshold->0,
{
}

/// An entry is called a duplicate if and only if it has others like it and is not
/// the one of them to keep.
pub proof fn which_entries_are_called_duplicates(duplicate: Option<DuplicateInfo>, lang: Lang)
    ensures
        duplicate_note(duplicate, lang) is Some <==> duplicate is Some
            && !duplicate->0.is_primary,
        duplicate_note(duplicate, Lang::Ja) is Some ==> duplicate_note(duplicate, Lang::Ja)
            == Some("⧉ 重複（他に"@ + decimal((duplicate->0.group_size - 1) as nat) + "件）"@),
        duplicate_note(duplicate, Lang::En) is Some ==> duplicate_note(duplicate, Lang::En)
            == Some("⧉ Duplicate ("@ + decimal((duplicate->0.group_size - 1) as nat) + " others)"@),
{
}

/// Every entry that is left out has its note, but for those that were not
/// selected.
pub proof fn which_exclusions_have_notes(
    excluded: Seq<ExcludedEntryView>,
    entry: ExcludedEntryView,
    lang: Lang,
)
    ensures
        ({
            let before = excluded.filter_map(exclusion_note(lang));
            let after = excluded.push(entry).filter_map(exclusion_note(lang));
            &&& entry.reason is NotSelected ==> after == before
            &&& entry.reason !is NotSelected ==> after.len() == before.len() + 1
                && after.drop_last() == before && after.last().0 == entry.path && Some(
                after.last().1,
            ) == exclusion_words(entry.reason, lang)
        }),
{
    assert(excluded.push(entry).drop_last() =~= excluded);
    let before = excluded.filter_map(exclusion_note(lang));
    let after = excluded.push(entry).filter_map(exclusion_note(lang));
    if entry.reason !is NotSelected {
        assert(after.drop_last() =~= before);
    }
}

/// The note of a place is the last one that was made of it.
pub proof fn the_last_note_counts(
    notes: Seq<(FilePathView, Seq<char>)>,
    path: FilePathView,
    k: int,
)
    requires
        -1 <= k < notes.len(),
        k >= 0 ==> notes[k].0.parts == path.parts,
        forall|j: int| k < j < notes.len() ==> (#[trigger] notes[j]).0.parts != path.parts,
    ensures
        k >= 0 ==> last_note(notes, path) == Some(notes[k].1),
        k == -1 ==> last_note(notes, path) is None,
    decreases notes.len(),
{
    if k < notes.len() - 1 {
        let front = notes.drop_last();
        assert(notes.last() == notes[notes.len() - 1]);
        assert forall|j: int| k < j < front.len() implies (#[trigger] front[j]).0.parts
            != path.parts by {
            assert(front[j] == notes[j]);
        }
        the_last_note_counts(front, path, k);
    }
}

/// The arguments of a process that is started again hold the mark, once where
/// they did not hold it before, and all else as it was.
pub proof fn arguments_are_marked(args: Seq<Seq<char>>)
    ensures
        marked_once(args).contains("--elevated"@),
        args.contains("--elevated"@) ==> marked_once(args) == args,
        !args.contains("--elevated"@) ==> marked_once(args).len() == args.len() + 1
            && marked_once(args).last() == "--elevated"@ && marked_once(args).drop_last() == args,
{
    let marked = marked_once(args);
    if !args.contains("--elevated"@) {
        assert(marked[args.len() as int] == "--elevated"@);
        assert(marked.drop_last() =~= args);
    }
}

/// What the user newly wants of a rule selects the entries of that rule anew and
/// leaves all others alone.
pub proof fn a_new_wish_bears_on_its_rule(
    entry: ScanEntryView,
    rule_id: Seq<char>,
    config: Config,
)
    ensures
        ({
            let after = with_pref_of(rule_id, config)(entry);
            let wish = config.rule_prefs.value(rule_id);
            &&& entry.rule_id != rule_id ==> after == entry
            &&& after == (ScanEntryView { selected: after.selected, ..entry })
            &&& entry.rule_id == rule_id && wish == Some(RulePref::AlwaysSelect) ==> after.selected
            &&& entry.rule_id == rule_id && wish == Some(RulePref::Exclude) ==> !after.selected
            &&& entry.rule_id == rule_id && (wish is None || wish == Some(RulePref::AskEachTime))
                ==> after.selected == entry.recommended
        }),
{
}

proof fn messages_are_distinct(failures: Seq<FailureView>)
    ensures
        messages(failures).no_duplicates(),
        forall|m: int|
            0 <= m < messages(failures).len() ==> exists|k: int|
                0 <= k < failures.len() && (#[trigger] failures[k]).1
                    == #[trigger] messages(failures)[m],
    decreases failures.len(),
{
    if failures.len() > 0 {
        let front = failures.drop_last();
        let last = failures.len() - 1;
        messages_are_distinct(front);
        let before = messages(front);
        let all = messages(failures);
        assert forall|m: int| 0 <= m < all.len() implies exists|k: int|
            0 <= k < failures.len() && (#[trigger] failures[k]).1 == #[trigger] all[m] by {
            if m < before.len() {
                assert(all[m] == before[m]);
                let k = choose|k: int|
                    0 <= k < front.len() && (#[trigger] front[k]).1 == before[m];
                assert(failures[k].1 == all[m]);
            } else {
                assert(failures[last].1 == all[m]);
            }
        }
        assert forall|a: int, b: int| 0 <= a < all.len() && 0 <= b < all.len() && a
            != b implies all[a] != all[b] by {
            if a < before.len() && b < before.len() {
                assert(before[a] != before[b]);
            } else if a < before.len() {
                assert(before.contains(before[a]));
            } else {
                assert(before.contains(before[b]));
            }
        }
    }
}

proof fn sorted_groups_are_groups(
    groups: Seq<(Seq<char>, Seq<FilePathView>)>,
    n: nat,
    i: int,
)
    requires
        0 <= i < largest_first(groups, n).len(),
    ensures
        groups.contains(largest_first(groups, n)[i]),
    decreases n,
{
    let first = groups.filter(has_count(n));
    if i < first.len() {
        assert(first.contains(first[i]));
        groups.lemma_filter_contains_rev(has_count(n), first[i]);
    } else {
        sorted_groups_are_groups(groups, (n - 1) as nat, i - first.len());
    }
}

/// Each group holds a message that occurred, with all the places where it did,
/// in their order, and no others.
pub proof fn groups_hold_their_failures(failures: Seq<FailureView>, i: int)
    requires
        0 <= i < grouped(failures).len(),
    ensures
        ({
            let (message, places) = grouped(failures)[i];
            &&& exists|k: int| 0 <= k < failures.len() && (#[trigger] failures[k]).1 == message
            &&& forall|k: int|
                0 <= k < failures.len() && (#[trigger] failures[k]).1 == message
                    ==> places.contains(failures[k].0)
            &&& forall|p: int|
                0 <= p < places.len() ==> exists|k: int|
                    0 <= k < failures.len() && (#[trigger] failures[k]).1 == message
                        && failures[k].0 == #[trigger] places[p]
        }),
{
    let groups = groups_in_order(failures);
    sorted_groups_are_groups(groups, failures.len(), i);
    let group = grouped(failures)[i];
    let m = choose|m: int| 0 <= m < groups.len() && groups[m] == group;
    let message = messages(failures)[m];
    assert(group == group_of(failures)(message));
    messages_are_distinct(failures);
    let places = group.1;
    let f = place_if(message);
    assert forall|k: int|
        0 <= k < failures.len() && (#[trigger] failures[k]).1 == message implies places.contains(
        failures[k].0,
    ) by {
        let p = crate::seqs::filter_map_keeps(failures, f, k);
        assert(places[p] == failures[k].0);
    }
    assert forall|p: int| 0 <= p < places.len() implies exists|k: int|
        0 <= k < failures.len() && (#[trigger] failures[k]).1 == message && failures[k].0
            == #[trigger] places[p] by {
        let k = crate::seqs::filter_map_source(failures, f, p);
        assert(failures[k].1 == message);
    }
}

/// The time of what lies ahead counts as now.
pub proof fn times_are_told_from_now(at: u64, now: u64)
    ensures
        at <= now ==> at + seconds_since(at, now) == now,
        at > now ==> seconds_since(at, now) == 0,
{
}

/// The row of a run tells when it was, what it freed, how many items it deleted
/// and whether they are gone for good.
pub proof fn what_the_row_of_a_run_tells(entry: HistoryEntry, now_secs: u64)
    ensures
        ({
            let ja = history_row(now_secs, Lang::Ja)(entry);
            let en = history_row(now_secs, Lang::En)(entry);
            let freed = size_text(entry.freed_bytes as nat);
            let count = decimal(entry.deleted_count as nat);
            &&& ja.run_id == entry.run_id
            &&& en.run_id == entry.run_id
            &&& ja.when == ago_words(seconds_since(entry.timestamp_secs, now_secs), Lang::Ja)
            &&& en.when == ago_words(seconds_since(entry.timestamp_secs, now_secs), Lang::En)
            &&& !entry.permanent ==> ja.summary == freed + " 解放 / "@ + count + " 件"@ + ""@
            &&& entry.permanent ==> ja.summary == freed + " 解放 / "@ + count + " 件"@
                + "（完全削除）"@
            &&& !entry.permanent ==> en.summary == freed + " freed / "@ + count + " items"@ + ""@
            &&& entry.permanent ==> en.summary == freed + " freed / "@ + count + " items"@
                + " (permanently deleted)"@
        }),
{
}

/// A bucket is shown if and only if something falls into it, with its share of
/// the whole; a category always is.
pub proof fn which_rows_are_shown(
    b: BucketBreakdown,
    c: CategoryView,
    rules: Seq<RuleView>,
    whole: u64,
    lang: Lang,
)
    requires
        c.total_size <= u64::MAX,
    ensures
        bucket_row(whole, lang)(b) is Some <==> b.item_count > 0,
        bucket_row(whole, lang)(b) matches Some(row) ==> row.part == b.total_size && row.whole
            == whole && row.label == b.bucket.words_in(lang) && row.detail == amount_words(
            b.item_count as nat,
            b.total_size as nat,
            lang,
        ),
        category_row(rules, whole, lang)(c).part == c.total_size,
        category_row(rules, whole, lang)(c).whole == whole,
        category_row(rules, whole, lang)(c).label == label_of(rules, c.rule_id),
        category_row(rules, whole, lang)(c).detail == amount_words(
            c.item_count,
            c.total_size,
            lang,
        ),
{
}

/// An age is told in days, where it is known and not that of today.
pub proof fn how_ages_are_told(age_days: Option<u64>)
    ensures
        age_days is None ==> age_words(age_days, Lang::Ja) == "不明"@ && age_words(
            age_days,
            Lang::En,
        ) == "Unknown"@,
        age_days == Some(0u64) ==> age_words(age_days, Lang::Ja) == "本日"@ && age_words(
            age_days,
            Lang::En,
        ) == "Today"@,
        age_days is Some && age_days->0 > 0 ==> age_words(age_days, Lang::Ja) == decimal(
            age_days->0 as nat,
        ) + "日"@ && age_words(age_days, Lang::En) == decimal(age_days->0 as nat) + " days"@,
{
}

/// The row of a record tells when it was made, the rule, the size, what became of
/// the item, and where it was.
pub proof fn what_the_row_of_a_record_tells(a: AuditRecordView, now_secs: u64, lang: Lang)
    ensures
        ({
            let row = audit_row(now_secs, lang)(a);
            &&& row.path == a.path.text
            &&& row.when == ago_words(seconds_since(a.timestamp_secs, now_secs), lang)
            &&& row.summary == a.rule_id + " "@ + size_text(a.size as nat) + " "@ + outcome_words(
                a.outcome,
                lang,
            )
        }),
{
}

/// In either language no two safeties, wishes or scopes are told in the same
/// words.
pub proof fn words_tell_choices_apart(
    a: Safety,
    b: Safety,
    p: RulePref,
    q: RulePref,
    s: Scope,
    t: Scope,
    lang: Lang,
)
    ensures
        safety_words(a, lang) == safety_words(b, lang) ==> a == b,
        pref_words(p, lang) == pref_words(q, lang) ==> p == q,
        s.words(lang) == t.words(lang) ==> s == t,
{
    reveal_strlit("安全");
    reveal_strlit("注意");
    reveal_strlit("要確認");
    reveal_strlit("Safe");
    reveal_strlit("Caution");
    reveal_strlit("Review");
    reveal_strlit("常に選択");
    reveal_strlit("常に除外");
    reveal_strlit("毎回確認");
    reveal_strlit("Always select");
    reveal_strlit("Always exclude");
    reveal_strlit("Ask each time");
    reveal_strlit("安全なものだけ");
    reveal_strlit("すべて表示");
    reveal_strlit("Safe items only");
    reveal_strlit("Show all");
    assert("安全"@[0] != "注意"@[0]);
    assert("安全"@.len() != "要確認"@.len());
    assert("注意"@.len() != "要確認"@.len());
    assert("Safe"@[0] != "Caution"@[0]);
    assert("Safe"@[0] != "Review"@[0]);
    assert("Caution"@[0] != "Review"@[0]);
    assert("常に選択"@[2] != "常に除外"@[2]);
    assert("常に選択"@[0] != "毎回確認"@[0]);
    assert("常に除外"@[0] != "毎回確認"@[0]);
    assert("Always select"@.len() != "Always exclude"@.len());
    assert("Always select"@[1] != "Ask each time"@[1]);
    assert("Always exclude"@[1] != "Ask each time"@[1]);
    assert("安全なものだけ"@[0] != "すべて表示"@[0]);
    assert("Safe items only"@[1] != "Show all"@[1]);
}

/// What became of an item is told with the message where it failed.
pub proof fn how_outcomes_are_told(message: Seq<char>)
    ensures
        outcome_words(ItemOutcomeView::Deleted, Lang::Ja) == "削除"@,
        outcome_words(ItemOutcomeView::Deleted, Lang::En) == "Deleted"@,
        outcome_words(ItemOutcomeView::Missing, Lang::Ja) == "対象なし"@,
        outcome_words(ItemOutcomeView::Missing, Lang::En) == "Not found"@,
        outcome_words(ItemOutcomeView::NotAttempted, Lang::Ja) == "未実行"@,
        outcome_words(ItemOutcomeView::NotAttempted, Lang::En) == "Not attempted"@,
        outcome_words(ItemOutcomeView::Failed { message }, Lang::Ja) == "失敗（"@ + message + "）"@,
        outcome_words(ItemOutcomeView::Failed { message }, Lang::En) == "Failed ("@ + message
            + ")"@,
{
}

/// Why an entry is left out is told in the words for that reason, in either
/// language.
pub proof fn how_exclusions_are_told(reason: ExclusionReason)
    ensures
        reason is NotSelected ==> exclusion_words(reason, Lang::Ja) is None && exclusion_words(
            reason,
            Lang::En,
        ) is None,
        reason is UnknownRule ==> exclusion_words(reason, Lang::Ja) == Some(
            "許可リスト外のため対象外"@,
        ) && exclusion_words(reason, Lang::En) == Some("Excluded: not in the rule allowlist"@),
        reason is NeedsAdmin ==> exclusion_words(reason, Lang::Ja) == Some(
            "管理者権限が必要なため対象外"@,
        ) && exclusion_words(reason, Lang::En) == Some(
            "Excluded: administrator privileges required"@,
        ),
        reason is OutsideRuleBase ==> exclusion_words(reason, Lang::Ja) == Some(
            "走査基点の外のため対象外"@,
        ) && exclusion_words(reason, Lang::En) == Some("Excluded: outside the rule's scan base"@),
        reason is UnresolvedBase ==> exclusion_words(reason, Lang::Ja) == Some(
            "場所を特定できないため対象外"@,
        ) && exclusion_words(reason, Lang::En) == Some(
            "Excluded: could not determine the location"@,
        ),
        reason is RequiresPermanent ==> exclusion_words(reason, Lang::Ja) == Some(
            "完全削除が必要（ゴミ箱の中身）"@,
        ) && exclusion_words(reason, Lang::En) == Some(
            "Requires permanent deletion (already in Recycle Bin)"@,
        ),
{
}

} // verus!
