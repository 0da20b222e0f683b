//! Whether deleting an entry is recommended, and why.
//!
//! The recommendation follows from the entry and its rule alone. It looks at no
//! file and at no clock.

use crate::entry::{ScanEntry, ScanEntryView};
use crate::format::{human_size, size_text};
use crate::i18n::Lang;
use crate::rule::{Rule, RuleView, Safety};
use crate::text::{decimal, push_decimal};
use vstd::prelude::*;
use vstd::utf8::is_ascii_chars;

verus! {

/// Said of an administrator area, in Japanese.
pub const ADMIN_JA: &'static str = "管理者権限が必要な領域です。内容を確認したうえで、必要な場合のみ手動で選択してください。";

/// Said of an administrator area, in English.
pub const ADMIN_EN: &'static str = "This area requires administrator privileges. Please check the contents and select it manually only if needed.";

/// Said of what may be in use, in Japanese.
pub const IN_USE_JA: &'static str = "使用中の可能性があるため推奨から外しました。";

/// Said of what may be in use, in English.
pub const IN_USE_EN: &'static str = " Excluded from the recommendation because it may be in use.";

/// Said of what is made again, in Japanese.
pub const SAFE_JA: &'static str = "再生成される一時領域のため、削除しても自動的に作り直されます。";

/// Said of what is made again, in English.
pub const SAFE_EN: &'static str = "This is a temporary area that is recreated automatically, so deleting it is safe. ";

/// Before a threshold, in Japanese.
pub const THRESHOLD_HEAD_JA: &'static str = "しきい値（";

/// After a threshold that is reached, in Japanese.
pub const OVER_TAIL_JA: &'static str = "日）を超えて更新されていないため推奨します。";

/// Before a threshold that is reached, in English.
pub const OVER_HEAD_EN: &'static str = " Recommended because it has not been modified within the threshold (";

/// After a threshold that is reached, in English.
pub const OVER_TAIL_EN: &'static str = " days).";

/// After a threshold that is not reached, in Japanese.
pub const UNDER_TAIL_JA: &'static str = "日）未満のため、内容を確認してから選択してください。";

/// Before a threshold that is not reached, in English.
pub const UNDER_HEAD_EN: &'static str = " This is within the threshold (";

/// After a threshold that is not reached, in English.
pub const UNDER_TAIL_EN: &'static str = " days), so please check the contents before selecting it.";

/// Said where no threshold applies, in Japanese.
pub const CHECK_JA: &'static str = "内容を確認してから選択してください。";

/// Said where no threshold applies, in English.
pub const CHECK_EN: &'static str = " Please check the contents before selecting it.";

/// Said of what has to be looked at, in Japanese.
pub const REVIEW_JA: &'static str = "中身の確認が必要な領域です。選択する前に内容を確認してください。";

/// Said of what has to be looked at, in English.
pub const REVIEW_EN: &'static str = " This area requires reviewing the contents. Please check them before selecting it.";

/// Before the size of a large entry, in Japanese.
pub const LARGE_HEAD_JA: &'static str = "サイズが大きい（";

/// After the size of a large entry, in Japanese.
pub const LARGE_TAIL_JA: &'static str = "）ため、削除前に内容を確認することをおすすめします。";

/// Before the size of a large entry, in English.
pub const LARGE_HEAD_EN: &'static str = "This is large (";

/// After the size of a large entry, in English.
pub const LARGE_TAIL_EN: &'static str = "), so we recommend checking the contents before deleting.";

/// Before the number of duplicates, in Japanese.
pub const DUPLICATE_HEAD_JA: &'static str = "同一内容のファイルが他に";

/// After the number of duplicates, in Japanese.
pub const DUPLICATE_TAIL_JA: &'static str = "件あります。";

/// Before the number of duplicates, in English.
pub const DUPLICATE_HEAD_EN: &'static str = "There are ";

/// After the number of duplicates, in English.
pub const DUPLICATE_TAIL_EN: &'static str = " other files with identical content.";

/// The age of what was updated today, in Japanese.
pub const TODAY_JA: &'static str = "本日更新されています。";

/// The age of what was updated today, in English.
pub const TODAY_EN: &'static str = "Updated today.";

/// Before an age in days, in Japanese.
pub const DAYS_HEAD_JA: &'static str = "最終更新から";

/// After an age in days, in Japanese.
pub const DAYS_TAIL_JA: &'static str = "日経過しています。";

/// Before an age in days, in English.
pub const DAYS_HEAD_EN: &'static str = "Last modified ";

/// After an age in days, in English.
pub const DAYS_TAIL_EN: &'static str = " days ago.";

/// Said of an unknown age, in Japanese.
pub const UNKNOWN_JA: &'static str = "最終更新日時は不明です。";

/// Said of an unknown age, in English.
pub const UNKNOWN_EN: &'static str = "Last modified time is unknown.";

/// A recommendation and its reason.
#[derive(Debug, PartialEq, Eq)]
pub struct Recommendation {
    /// Deleting is recommended.
    pub recommended: bool,
    /// Why, or why not.
    pub reason: String,
}

/// The value of a [`Recommendation`].
#[verifier::ext_equal]
pub struct RecommendationView {
    pub recommended: bool,
    pub reason: Seq<char>,
}

impl View for Recommendation {
    type V = RecommendationView;

    open spec fn view(&self) -> RecommendationView {
        RecommendationView { recommended: self.recommended, reason: self.reason@ }
    }
}

impl Recommendation {
    /// A recommendation with its reason.
    pub fn new(recommended: bool, reason: String) -> (r: Recommendation)
        ensures
            r.recommended == recommended,
            r.reason == reason,
    {
        Recommendation { recommended, reason }
    }
}

/// The Japanese or the English words.
pub open spec fn words(lang: Lang, ja: &'static str, en: &'static str) -> Seq<char> {
    match lang {
        Lang::Ja => ja@,
        Lang::En => en@,
    }
}

/// The Japanese or the English words.
pub fn pick(lang: Lang, ja: &'static str, en: &'static str) -> (r: &'static str)
    ensures
        r@ == words(lang, ja, en),
{
    match lang {
        Lang::Ja => ja,
        Lang::En => en,
    }
}

/// The entry may be in use: it was found open, or, where that is not known, it
/// was updated today.
pub open spec fn possibly_in_use(entry: ScanEntryView) -> bool {
    match entry.in_use {
        Some(open) => open,
        None => entry.age_days == Some(0u64),
    }
}

/// Whether the entry may be in use. An answer from looking at the file always
/// counts for more than its age.
pub fn is_possibly_in_use(entry: &ScanEntry) -> (r: bool)
    ensures
        r == possibly_in_use(entry@),
{
    match entry.in_use {
        Some(open) => open,
        None => match entry.age_days {
            Some(days) => days == 0,
            None => false,
        },
    }
}

/// What is said of an age.
pub open spec fn age_words(age_days: Option<u64>, lang: Lang) -> Seq<char> {
    match age_days {
        Some(n) => if n == 0 {
            words(lang, TODAY_JA, TODAY_EN)
        } else {
            words(lang, DAYS_HEAD_JA, DAYS_HEAD_EN) + decimal(n as nat) + words(
                lang,
                DAYS_TAIL_JA,
                DAYS_TAIL_EN,
            )
        },
        None => words(lang, UNKNOWN_JA, UNKNOWN_EN),
    }
}

/// What is said of an age.
pub fn describe_age(age_days: Option<u64>, lang: Lang) -> (r: String)
    ensures
        r@ == age_words(age_days, lang),
{
    match age_days {
        Some(n) => if n == 0 {
            pick(lang, TODAY_JA, TODAY_EN).to_owned()
        } else {
            let mut r = pick(lang, DAYS_HEAD_JA, DAYS_HEAD_EN).to_owned();
            push_decimal(&mut r, n);
            r.append(pick(lang, DAYS_TAIL_JA, DAYS_TAIL_EN));
            r
        },
        None => pick(lang, UNKNOWN_JA, UNKNOWN_EN).to_owned(),
    }
}

/// The entry has reached the age threshold of its rule.
pub open spec fn is_past_threshold(entry: ScanEntryView, rule: RuleView) -> bool {
    match (entry.age_days, rule.age_threshold_days) {
        (Some(age), Some(threshold)) => age >= threshold,
        _ => false,
    }
}

/// Deleting is recommended: never in an administrator area, never what may be
/// in use, never what has to be looked at; else what is safe, and what is past
/// its threshold.
pub open spec fn is_recommended(entry: ScanEntryView, rule: RuleView) -> bool {
    &&& !rule.needs_admin
    &&& !possibly_in_use(entry)
    &&& match rule.safety {
        Safety::Safe => true,
        Safety::Caution => is_past_threshold(entry, rule),
        Safety::Review => false,
    }
}

/// What is said of an entry that is not in use, under a rule that calls for
/// caution.
pub open spec fn caution_reason(entry: ScanEntryView, rule: RuleView, lang: Lang) -> Seq<char> {
    let age = age_words(entry.age_days, lang);
    match (entry.age_days, rule.age_threshold_days) {
        (Some(_), Some(threshold)) => if is_past_threshold(entry, rule) {
            age + words(lang, THRESHOLD_HEAD_JA, OVER_HEAD_EN) + decimal(threshold as nat) + words(
                lang,
                OVER_TAIL_JA,
                OVER_TAIL_EN,
            )
        } else {
            age + words(lang, THRESHOLD_HEAD_JA, UNDER_HEAD_EN) + decimal(threshold as nat) + words(
                lang,
                UNDER_TAIL_JA,
                UNDER_TAIL_EN,
            )
        },
        _ => age + words(lang, CHECK_JA, CHECK_EN),
    }
}

/// Why deleting is recommended or not, before the notes on size and duplicates.
pub open spec fn base_reason(entry: ScanEntryView, rule: RuleView, lang: Lang) -> Seq<char> {
    let age = age_words(entry.age_days, lang);
    if rule.needs_admin {
        words(lang, ADMIN_JA, ADMIN_EN)
    } else if rule.safety == Safety::Review {
        age + words(lang, REVIEW_JA, REVIEW_EN)
    } else if possibly_in_use(entry) {
        age + words(lang, IN_USE_JA, IN_USE_EN)
    } else if rule.safety == Safety::Safe {
        words(lang, SAFE_JA, SAFE_EN) + age
    } else {
        caution_reason(entry, rule, lang)
    }
}

/// The note on the size of a large entry.
pub open spec fn size_note(entry: ScanEntryView, rule: RuleView, lang: Lang) -> Seq<char> {
    match rule.large_file_threshold_bytes {
        Some(threshold) => if entry.size >= threshold {
            words(lang, LARGE_HEAD_JA, LARGE_HEAD_EN) + size_text(entry.size as nat) + words(
                lang,
                LARGE_TAIL_JA,
                LARGE_TAIL_EN,
            )
        } else {
            Seq::empty()
        },
        None => Seq::empty(),
    }
}

/// The note on the duplicates of an entry that is not the one to keep.
pub open spec fn duplicate_note(entry: ScanEntryView, lang: Lang) -> Seq<char> {
    match entry.duplicate {
        Some(info) => if !info.is_primary {
            words(lang, DUPLICATE_HEAD_JA, DUPLICATE_HEAD_EN) + decimal(
                (info.group_size - 1) as nat,
            ) + words(lang, DUPLICATE_TAIL_JA, DUPLICATE_TAIL_EN)
        } else {
            Seq::empty()
        },
        None => Seq::empty(),
    }
}

/// The recommendation for an entry: the notes are added to the reason and
/// change nothing else.
pub open spec fn recommendation(
    entry: ScanEntryView,
    rule: RuleView,
    lang: Lang,
) -> RecommendationView {
    RecommendationView {
        recommended: is_recommended(entry, rule),
        reason: base_reason(entry, rule, lang) + size_note(entry, rule, lang) + duplicate_note(
            entry,
            lang,
        ),
    }
}

/// An entry whose duplicate group is not empty.
pub open spec fn has_counted_duplicates(entry: ScanEntryView) -> bool {
    entry.duplicate is Some && !entry.duplicate->0.is_primary ==> entry.duplicate->0.group_size >= 1
}

/// The recommendation for `entry` under `rule`.
pub fn recommend(entry: &ScanEntry, rule: &Rule, lang: Lang) -> (r: Recommendation)
    requires
        has_counted_duplicates(entry@),
    ensures
        r@ == recommendation(entry@, rule@, lang),
{
    let base = base_recommendation(entry, rule, lang);
    let recommended = base.recommended;
    let mut reason = base.reason;
    match rule.large_file_threshold_bytes {
        Some(threshold) => {
            if entry.size >= threshold {
                reason.append(pick(lang, LARGE_HEAD_JA, LARGE_HEAD_EN));
                let size = human_size(entry.size);
                reason.append(size.as_str());
                reason.append(pick(lang, LARGE_TAIL_JA, LARGE_TAIL_EN));
            }
        },
        None => {},
    }
    assert(reason@ =~= base_reason(entry@, rule@, lang) + size_note(entry@, rule@, lang));
    match entry.duplicate {
        Some(info) => {
            if !info.is_primary {
                reason.append(pick(lang, DUPLICATE_HEAD_JA, DUPLICATE_HEAD_EN));
                push_decimal(&mut reason, (info.group_size - 1) as u64);
                reason.append(pick(lang, DUPLICATE_TAIL_JA, DUPLICATE_TAIL_EN));
            }
        },
        None => {},
    }
    assert(reason@ =~= recommendation(entry@, rule@, lang).reason);
    Recommendation::new(recommended, reason)
}

/// The recommendation before the notes on size and duplicates.
pub fn base_recommendation(entry: &ScanEntry, rule: &Rule, lang: Lang) -> (r: Recommendation)
    ensures
        r@.recommended == is_recommended(entry@, rule@),
        r@.reason == base_reason(entry@, rule@, lang),
{
    if rule.needs_admin {
        return Recommendation::new(false, pick(lang, ADMIN_JA, ADMIN_EN).to_owned());
    }
    let mut note = describe_age(entry.age_days, lang);
    match rule.safety {
        Safety::Review => {
            note.append(pick(lang, REVIEW_JA, REVIEW_EN));
            Recommendation::new(false, note)
        },
        Safety::Safe => {
            if is_possibly_in_use(entry) {
                note.append(pick(lang, IN_USE_JA, IN_USE_EN));
                Recommendation::new(false, note)
            } else {
                let reason = pick(lang, SAFE_JA, SAFE_EN).to_owned().concat(note.as_str());
                Recommendation::new(true, reason)
            }
        },
        Safety::Caution => {
            if is_possibly_in_use(entry) {
                note.append(pick(lang, IN_USE_JA, IN_USE_EN));
                Recommendation::new(false, note)
            } else {
                match (entry.age_days, rule.age_threshold_days) {
                    (Some(age), Some(threshold)) => {
                        if age >= threshold {
                            note.append(pick(lang, THRESHOLD_HEAD_JA, OVER_HEAD_EN));
                            push_decimal(&mut note, threshold);
                            note.append(pick(lang, OVER_TAIL_JA, OVER_TAIL_EN));
                            Recommendation::new(true, note)
                        } else {
                            note.append(pick(lang, THRESHOLD_HEAD_JA, UNDER_HEAD_EN));
                            push_decimal(&mut note, threshold);
                            note.append(pick(lang, UNDER_TAIL_JA, UNDER_TAIL_EN));
                            Recommendation::new(false, note)
                        }
                    },
                    _ => {
                        note.append(pick(lang, CHECK_JA, CHECK_EN));
                        Recommendation::new(false, note)
                    },
                }
            }
        },
    }
}

// ---- What holds of every recommendation ----

/// Nothing in an administrator area is ever recommended, and nothing that has
/// to be looked at, however old it is.
pub proof fn admin_and_review_are_never_recommended(
    entry: ScanEntryView,
    rule: RuleView,
    lang: Lang,
)
    requires
        rule.needs_admin || rule.safety == Safety::Review,
    ensures
        !recommendation(entry, rule, lang).recommended,
{
}

/// What may be in use is never recommended.
pub proof fn what_may_be_in_use_is_never_recommended(
    entry: ScanEntryView,
    rule: RuleView,
    lang: Lang,
)
    requires
        possibly_in_use(entry),
    ensures
        !recommendation(entry, rule, lang).recommended,
{
}

/// What is made again is recommended unless it may be in use.
pub proof fn safe_entries_are_recommended(entry: ScanEntryView, rule: RuleView, lang: Lang)
    requires
        rule.safety == Safety::Safe,
        !rule.needs_admin,
        !possibly_in_use(entry),
    ensures
        recommendation(entry, rule, lang).recommended,
{
}

/// When an entry was modified bears on its recommendation through its age
/// alone.
pub proof fn modified_does_not_matter(
    entry: ScanEntryView,
    modified: Option<i128>,
    rule: RuleView,
    lang: Lang,
)
    ensures
        recommendation(ScanEntryView { modified, ..entry }, rule, lang) == recommendation(
            entry,
            rule,
            lang,
        ),
{
}

/// Size and duplicates change the reason, never the recommendation.
pub proof fn notes_do_not_change_the_recommendation(
    entry: ScanEntryView,
    size: u64,
    duplicate: Option<crate::entry::DuplicateInfo>,
    rule: RuleView,
    lang: Lang,
)
    ensures
        recommendation(ScanEntryView { size, duplicate, ..entry }, rule, lang).recommended
            == recommendation(entry, rule, lang).recommended,
{
}

/// The language changes the reason, never the recommendation.
pub proof fn language_does_not_change_the_recommendation(
    entry: ScanEntryView,
    rule: RuleView,
    a: Lang,
    b: Lang,
)
    ensures
        recommendation(entry, rule, a).recommended == recommendation(entry, rule, b).recommended,
{
}

/// An older entry is never recommended less than a younger one that is equally
/// known to be out of use.
pub proof fn age_only_helps(
    entry: ScanEntryView,
    older: u64,
    rule: RuleView,
    lang: Lang,
)
    requires
        entry.age_days is Some,
        entry.age_days->0 <= older,
        recommendation(entry, rule, lang).recommended,
    ensures
        recommendation(ScanEntryView { age_days: Some(older), ..entry }, rule, lang).recommended,
{
}

/// Deleting is recommended where, and only where, no administrator rights are
/// needed, the entry was not found open, it was not updated today where that
/// could not be told, and it is either safe, or calls for caution and is as old
/// as the threshold of its rule, both being known.
pub proof fn when_deleting_is_recommended(entry: ScanEntryView, rule: RuleView, lang: Lang)
    ensures
        recommendation(entry, rule, lang).recommended <==> {
            &&& !rule.needs_admin
            &&& entry.in_use != Some(true)
            &&& entry.in_use is None ==> entry.age_days != Some(0u64)
            &&& rule.safety == Safety::Safe || {
                &&& rule.safety == Safety::Caution
                &&& entry.age_days is Some
                &&& rule.age_threshold_days is Some
                &&& entry.age_days->0 >= rule.age_threshold_days->0
            }
        },
        entry.in_use == Some(true) ==> !recommendation(entry, rule, lang).recommended,
        rule.safety == Safety::Caution && (rule.age_threshold_days is None
            || entry.age_days is None) ==> !recommendation(entry, rule, lang).recommended,
{
}

/// The size of an entry is noted where its rule has a limit and the entry
/// reaches it, and the number of its other duplicates where it is not the one to
/// keep. The notes follow what is said without them.
pub proof fn when_notes_are_added(entry: ScanEntryView, rule: RuleView, lang: Lang)
    ensures
        ({
            let plain = recommendation(
                ScanEntryView { duplicate: None, ..entry },
                RuleView { large_file_threshold_bytes: None, ..rule },
                lang,
            ).reason;
            let with_size = recommendation(
                ScanEntryView { duplicate: None, ..entry },
                rule,
                lang,
            ).reason;
            let full = recommendation(entry, rule, lang).reason;
            let is_large = rule.large_file_threshold_bytes is Some && entry.size
                >= rule.large_file_threshold_bytes->0;
            let is_extra = entry.duplicate is Some && !entry.duplicate->0.is_primary;
            &&& plain.is_prefix_of(with_size)
            &&& with_size.is_prefix_of(full)
            &&& is_large <==> with_size != plain
            &&& is_extra <==> full != with_size
            &&& is_large ==> with_size.skip(plain.len() as int) == words(
                lang,
                LARGE_HEAD_JA,
                LARGE_HEAD_EN,
            ) + size_text(entry.size as nat) + words(lang, LARGE_TAIL_JA, LARGE_TAIL_EN)
            &&& is_extra ==> full.skip(with_size.len() as int) == words(
                lang,
                DUPLICATE_HEAD_JA,
                DUPLICATE_HEAD_EN,
            ) + decimal((entry.duplicate->0.group_size - 1) as nat) + words(
                lang,
                DUPLICATE_TAIL_JA,
                DUPLICATE_TAIL_EN,
            )
        }),
{
    reveal_strlit("サイズが大きい（");
    reveal_strlit("This is large (");
    reveal_strlit("同一内容のファイルが他に");
    reveal_strlit("There are ");
    let base = base_reason(entry, rule, lang);
    let size = size_note(entry, rule, lang);
    let more = duplicate_note(entry, lang);
    assert(base_reason(
        ScanEntryView { duplicate: None, ..entry },
        RuleView { large_file_threshold_bytes: None, ..rule },
        lang,
    ) == base);
    assert(base + Seq::<char>::empty() + Seq::<char>::empty() =~= base);
    assert(base + size + Seq::<char>::empty() =~= base + size);
    assert((base + size).skip(base.len() as int) =~= size);
    assert((base + size + more).skip((base + size).len() as int) =~= more);
    assert((base + size).subrange(0, base.len() as int) =~= base);
    assert((base + size + more).subrange(0, (base + size).len() as int) =~= base + size);
}

/// The reason names the threshold that was reached or missed, and a threshold
/// that is reached reads otherwise than one that is missed.
pub proof fn reasons_tell_the_threshold(entry: ScanEntryView, rule: RuleView, lang: Lang)
    requires
        rule.safety == Safety::Caution,
        !rule.needs_admin,
        entry.in_use == Some(false),
        entry.age_days is Some,
        rule.age_threshold_days is Some,
    ensures
        ({
            let threshold = decimal(rule.age_threshold_days->0 as nat);
            let head = age_words(entry.age_days, lang);
            let reason = base_reason(entry, rule, lang);
            &&& entry.age_days->0 >= rule.age_threshold_days->0 ==> reason == head + words(
                lang,
                THRESHOLD_HEAD_JA,
                OVER_HEAD_EN,
            ) + threshold + words(lang, OVER_TAIL_JA, OVER_TAIL_EN)
            &&& entry.age_days->0 < rule.age_threshold_days->0 ==> reason == head + words(
                lang,
                THRESHOLD_HEAD_JA,
                UNDER_HEAD_EN,
            ) + threshold + words(lang, UNDER_TAIL_JA, UNDER_TAIL_EN)
        }),
{
}

/// There is always a reason.
pub proof fn reason_is_never_empty(entry: ScanEntryView, rule: RuleView, lang: Lang)
    ensures
        recommendation(entry, rule, lang).reason.len() > 0,
{
    reveal_strlit("管理者権限が必要な領域です。内容を確認したうえで、必要な場合のみ手動で選択してください。");
    reveal_strlit("This area requires administrator privileges. Please check the contents and select it manually only if needed.");
    reveal_strlit("中身の確認が必要な領域です。選択する前に内容を確認してください。");
    reveal_strlit(" This area requires reviewing the contents. Please check them before selecting it.");
    reveal_strlit("使用中の可能性があるため推奨から外しました。");
    reveal_strlit(" Excluded from the recommendation because it may be in use.");
    reveal_strlit("再生成される一時領域のため、削除しても自動的に作り直されます。");
    reveal_strlit("This is a temporary area that is recreated automatically, so deleting it is safe. ");
    reveal_strlit("日）を超えて更新されていないため推奨します。");
    reveal_strlit(" days).");
    reveal_strlit("日）未満のため、内容を確認してから選択してください。");
    reveal_strlit(" days), so please check the contents before selecting it.");
    reveal_strlit("内容を確認してから選択してください。");
    reveal_strlit(" Please check the contents before selecting it.");
}

proof fn decimal_is_ascii(n: nat)
    ensures
        is_ascii_chars(decimal(n)),
    decreases n,
{
    if n >= 10 {
        decimal_is_ascii(n / 10);
    }
}

proof fn size_is_ascii(bytes: nat)
    ensures
        is_ascii_chars(size_text(bytes)),
{
    reveal_strlit("B");
    reveal_strlit("KB");
    reveal_strlit("MB");
    reveal_strlit("GB");
    reveal_strlit("TB");
    reveal_strlit(" ");
    reveal_strlit(".");
    let size = crate::format::nearest_double(bytes);
    let unit = crate::format::unit_for(size);
    let shown = crate::format::half_even(size * 10, crate::format::unit_bytes(unit));
    decimal_is_ascii(bytes);
    decimal_is_ascii(shown / 10);
    decimal_is_ascii(shown % 10);
}

/// An English reason is made of ASCII characters alone.
pub proof fn english_reason_is_ascii(entry: ScanEntryView, rule: RuleView)
    ensures
        is_ascii_chars(recommendation(entry, rule, Lang::En).reason),
{
    reveal_strlit("This area requires administrator privileges. Please check the contents and select it manually only if needed.");
    reveal_strlit(" Excluded from the recommendation because it may be in use.");
    reveal_strlit("This is a temporary area that is recreated automatically, so deleting it is safe. ");
    reveal_strlit(" Recommended because it has not been modified within the threshold (");
    reveal_strlit(" days).");
    reveal_strlit(" This is within the threshold (");
    reveal_strlit(" days), so please check the contents before selecting it.");
    reveal_strlit(" Please check the contents before selecting it.");
    reveal_strlit(" This area requires reviewing the contents. Please check them before selecting it.");
    reveal_strlit("This is large (");
    reveal_strlit("), so we recommend checking the contents before deleting.");
    reveal_strlit("There are ");
    reveal_strlit(" other files with identical content.");
    reveal_strlit("Updated today.");
    reveal_strlit("Last modified ");
    reveal_strlit(" days ago.");
    reveal_strlit("Last modified time is unknown.");
    let age = age_words(entry.age_days, Lang::En);
    if let Some(n) = entry.age_days {
        decimal_is_ascii(n as nat);
    }
    if let Some(n) = rule.age_threshold_days {
        decimal_is_ascii(n as nat);
    }
    if let Some(info) = entry.duplicate {
        decimal_is_ascii((info.group_size - 1) as nat);
    }
    size_is_ascii(entry.size as nat);
    assert(is_ascii_chars(age));
    assert(is_ascii_chars(caution_reason(entry, rule, Lang::En)));
    assert(is_ascii_chars(base_reason(entry, rule, Lang::En)));
    assert(is_ascii_chars(size_note(entry, rule, Lang::En)));
    assert(is_ascii_chars(duplicate_note(entry, Lang::En)));
}

} // verus!
