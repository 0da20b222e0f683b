//! The rules of the user's rule file: changes to the built-in rules, and rules
//! of the user's own.
//!
//! The file can never widen what is dangerous. It cannot touch administrator
//! rights, it cannot call anything safer than it is, and the rules that it adds
//! look into a few named directories only. What is wrong in it is reported and
//! left out, and the rest applies.

use crate::config::{
    clamp_days, clamped_days, is_kept_in_range, Config, AGE_THRESHOLD_MAX_DAYS,
    AGE_THRESHOLD_MIN_DAYS,
};
use crate::export::{safety_name, safety_text};
use crate::path::{file_in_dir, is_file_in, FilePath};
use crate::platform::{KnownDir, Platform};
use crate::rule::{
    builtin, builtin_ids_are_unique, builtin_rules, keep_permitted, permitted_when, rule_views,
    views_of_push, MatchKind, MatchKindView, Rule, RuleView, Safety,
};
use crate::scan::{keep_safeties, with_safety};
use crate::text::{
    chars_of, decimal, is_control, is_control_char, is_listed, is_space, is_whitespace, lowercase,
    push_decimal, same_text, texts_of, to_lowercase, trim_start, trim_start_of,
};
use vstd::prelude::*;

verus! {

/// The version of rule files that is understood. A file of a later version is
/// not read.
pub const CURRENT_SCHEMA_VERSION: u32 = 1;

/// The longest id of a user's rule.
pub const ID_MAX_LEN: usize = 64;

/// The longest label of a user's rule, in characters.
pub const LABEL_MAX_LEN: usize = 200;

/// The longest description of a user's rule, in characters.
pub const DESCRIPTION_MAX_LEN: usize = 2000;

/// How many rules a user can add.
pub const MAX_USER_RULES: usize = 32;

/// Something in a rule file that was left out.
#[derive(Debug, PartialEq, Eq)]
pub struct RuleSetIssue {
    /// The rule, where it concerns one.
    pub rule_id: Option<String>,
    /// What is wrong.
    pub message: String,
}

/// The value of a [`RuleSetIssue`].
#[verifier::ext_equal]
pub struct IssueView {
    pub rule_id: Option<Seq<char>>,
    pub message: Seq<char>,
}

/// The value of a text that may be missing.
pub open spec fn maybe_text(s: Option<String>) -> Option<Seq<char>> {
    match s {
        Some(t) => Some(t@),
        None => None,
    }
}

impl View for RuleSetIssue {
    type V = IssueView;

    open spec fn view(&self) -> IssueView {
        IssueView { rule_id: maybe_text(self.rule_id), message: self.message@ }
    }
}

/// The values of a list of issues.
pub open spec fn issue_views(issues: Seq<RuleSetIssue>) -> Seq<IssueView> {
    issues.map_values(|i: RuleSetIssue| i@)
}

// ---- What a rule file holds ----

/// What a user's rule takes.
#[derive(Debug)]
pub enum RawMatchKind {
    /// Everything.
    All,
    /// Files with one of the extensions.
    Extension {
        /// The extensions, as they were written.
        extensions: Vec<String>,
    },
    /// Old files.
    OlderThan,
}

/// A rule of the user's own, as it was written.
#[derive(Debug)]
pub struct RawUserRule {
    /// Its id.
    pub id: Option<String>,
    /// Its label.
    pub label: Option<String>,
    /// Its description.
    pub description: Option<String>,
    /// Where it looks.
    pub base: Option<String>,
    /// What it takes.
    pub match_kind: Option<RawMatchKind>,
    /// Its safety.
    pub safety: Option<String>,
    /// Its age threshold.
    pub age_threshold_days: Option<u64>,
    /// Administrator rights are spoken of.
    pub has_needs_admin: bool,
}

/// A change to a built-in rule.
#[derive(Debug)]
pub struct RuleOverride {
    /// The new safety.
    pub safety: Option<String>,
    /// The new age threshold.
    pub age_threshold_days: Option<u64>,
    /// Whether the rule is used at all.
    pub enabled: Option<bool>,
    /// Administrator rights are spoken of.
    pub has_needs_admin: bool,
}

/// A rule file.
#[derive(Debug)]
pub struct RuleFile {
    /// Its version.
    pub schema_version: u32,
    /// The changes, by rule id.
    pub overrides: Vec<(String, RuleOverride)>,
    /// The rules that are added.
    pub rules: Vec<RawUserRule>,
}

// ---- The parts of a rule ----

/// The safety with the name `value`.
pub open spec fn safety_named(value: Seq<char>) -> Option<Safety> {
    if value == "Safe"@ {
        Some(Safety::Safe)
    } else if value == "Caution"@ {
        Some(Safety::Caution)
    } else if value == "Review"@ {
        Some(Safety::Review)
    } else {
        None
    }
}

/// What is said of an unknown safety.
pub open spec fn unknown_safety(value: Seq<char>) -> Seq<char> {
    "'"@ + value + "' は不明です（Safe / Caution / Review）"@
}

/// The safety with the name `value`.
pub fn parse_safety(value: &str) -> (r: Result<Safety, String>)
    ensures
        match r {
            Ok(safety) => safety_named(value@) == Some(safety),
            Err(message) => safety_named(value@) is None && message@ == unknown_safety(value@),
        },
{
    if same_text(value, "Safe") {
        Ok(Safety::Safe)
    } else if same_text(value, "Caution") {
        Ok(Safety::Caution)
    } else if same_text(value, "Review") {
        Ok(Safety::Review)
    } else {
        let mut message = "'".to_owned();
        message.append(value);
        message.append("' は不明です（Safe / Caution / Review）");
        Err(message)
    }
}

/// The directory with the name `name` among those that a user's rule can look
/// into: neither administrator areas nor the recycle bin are.
pub open spec fn base_named(name: Seq<char>) -> Option<KnownDir> {
    if name == "UserTemp"@ {
        Some(KnownDir::UserTemp)
    } else if name == "LocalAppData"@ {
        Some(KnownDir::LocalAppData)
    } else if name == "Cache"@ {
        Some(KnownDir::Cache)
    } else if name == "Downloads"@ {
        Some(KnownDir::Downloads)
    } else if name == "ThumbnailCache"@ {
        Some(KnownDir::ThumbnailCache)
    } else {
        None
    }
}

/// What is said of a directory that a user's rule cannot look into.
pub open spec fn refused_base(name: Seq<char>) -> Seq<char> {
    "base '"@ + name
        + "' は使用できません（許可: UserTemp, LocalAppData, Cache, Downloads, ThumbnailCache）"@
}

/// The directory with the name `name` among those that a user's rule can look
/// into.
pub fn parse_allowed_base(name: &str) -> (r: Result<KnownDir, String>)
    ensures
        match r {
            Ok(base) => base_named(name@) == Some(base),
            Err(message) => base_named(name@) is None && message@ == refused_base(name@),
        },
{
    if same_text(name, "UserTemp") {
        Ok(KnownDir::UserTemp)
    } else if same_text(name, "LocalAppData") {
        Ok(KnownDir::LocalAppData)
    } else if same_text(name, "Cache") {
        Ok(KnownDir::Cache)
    } else if same_text(name, "Downloads") {
        Ok(KnownDir::Downloads)
    } else if same_text(name, "ThumbnailCache") {
        Ok(KnownDir::ThumbnailCache)
    } else {
        let mut message = "base '".to_owned();
        message.append(name);
        message.append(
            "' は使用できません（許可: UserTemp, LocalAppData, Cache, Downloads, ThumbnailCache）",
        );
        Err(message)
    }
}

/// A character that an id can hold.
pub open spec fn is_id_char(c: char) -> bool {
    'a' <= c <= 'z' || '0' <= c <= '9' || c == '_'
}

/// A text that can be an id.
pub open spec fn is_id(id: Seq<char>) -> bool {
    &&& 1 <= id.len() <= ID_MAX_LEN
    &&& forall|i: int| 0 <= i < id.len() ==> is_id_char(#[trigger] id[i])
}

/// What is wrong with the id of a user's rule: it must have the form of an id,
/// and be neither that of a rule in use nor that of a rule added before.
pub open spec fn id_error(
    id: Seq<char>,
    existing: Seq<Seq<char>>,
    seen: Seq<Seq<char>>,
) -> Option<Seq<char>> {
    if !is_id(id) {
        Some(
            "id '"@ + id + "' は1〜"@ + decimal(ID_MAX_LEN as nat)
                + "文字の英小文字・数字・アンダースコアのみ使用できます"@,
        )
    } else if existing.contains(id) {
        Some(
            "id '"@ + id
                + "' は組み込みルールと重複しています（上書きは overrides を使ってください）"@,
        )
    } else if seen.contains(id) {
        Some("id '"@ + id + "' はユーザー定義ルール内で重複しています"@)
    } else {
        None
    }
}

fn has_id_form(id: &str) -> (r: bool)
    ensures
        r == is_id(id@),
{
    let chars = chars_of(id);
    if chars.len() == 0 || chars.len() > ID_MAX_LEN {
        return false;
    }
    let mut i: usize = 0;
    while i < chars.len()
        invariant
            i <= chars@.len(),
            chars@ == id@,
            forall|j: int| 0 <= j < i ==> is_id_char(#[trigger] chars@[j]),
        decreases chars@.len() - i,
    {
        let c = chars[i];
        if !(('a' <= c && c <= 'z') || ('0' <= c && c <= '9') || c == '_') {
            assert(!is_id_char(id@[i as int]));
            return false;
        }
        i = i + 1;
    }
    true
}

/// What is wrong with the id of a user's rule.
pub fn validate_id(id: &str, existing_ids: &Vec<String>, seen_ids: &Vec<String>) -> (r: Result<
    (),
    String,
>)
    ensures
        match r {
            Ok(_) => id_error(id@, texts_of(existing_ids@), texts_of(seen_ids@)) is None,
            Err(message) => id_error(id@, texts_of(existing_ids@), texts_of(seen_ids@)) == Some(
                message@,
            ),
        },
{
    let mut message = "id '".to_owned();
    message.append(id);
    if !has_id_form(id) {
        message.append("' は1〜");
        push_decimal(&mut message, ID_MAX_LEN as u64);
        message.append("文字の英小文字・数字・アンダースコアのみ使用できます");
        return Err(message);
    }
    if is_listed(existing_ids, id) {
        message.append("' は組み込みルールと重複しています（上書きは overrides を使ってください）");
        return Err(message);
    }
    if is_listed(seen_ids, id) {
        message.append("' はユーザー定義ルール内で重複しています");
        return Err(message);
    }
    Ok(())
}

/// There is a control character in `s`.
pub open spec fn has_control(s: Seq<char>) -> bool {
    exists|i: int| 0 <= i < s.len() && is_control_char(#[trigger] s[i])
}

/// What is wrong with a text of a user's rule: it must not be empty nor too
/// long, and hold no control character and none that marks a concrete path.
pub open spec fn text_error(value: Seq<char>, field: Seq<char>, max_len: nat) -> Option<Seq<char>> {
    if value.len() == 0 {
        Some(field + " を空にすることはできません"@)
    } else if value.len() > max_len {
        Some(field + " は"@ + decimal(max_len) + "文字以内にしてください"@)
    } else if value.contains(':') || value.contains('\\') {
        Some(field + " にパスらしき文字（':' や '\\'）を含めることはできません"@)
    } else if has_control(value) {
        Some(field + " に制御文字を含めることはできません"@)
    } else {
        None
    }
}

fn contains_control(s: &str) -> (r: bool)
    ensures
        r == has_control(s@),
{
    let chars = chars_of(s);
    let mut i: usize = 0;
    while i < chars.len()
        invariant
            i <= chars@.len(),
            chars@ == s@,
            forall|j: int| 0 <= j < i ==> !is_control_char(#[trigger] chars@[j]),
        decreases chars@.len() - i,
    {
        if is_control(chars[i]) {
            assert(is_control_char(s@[i as int]));
            return true;
        }
        i = i + 1;
    }
    false
}

/// What is wrong with a text of a user's rule.
pub fn validate_text(value: &str, field: &str, max_len: usize) -> (r: Result<(), String>)
    ensures
        match r {
            Ok(_) => text_error(value@, field@, max_len as nat) is None,
            Err(message) => text_error(value@, field@, max_len as nat) == Some(message@),
        },
{
    let mut message = field.to_owned();
    let chars = chars_of(value);
    if chars.len() == 0 {
        message.append(" を空にすることはできません");
        return Err(message);
    }
    if chars.len() > max_len {
        message.append(" は");
        push_decimal(&mut message, max_len as u64);
        message.append("文字以内にしてください");
        return Err(message);
    }
    if crate::text::contains_char(value, ':') || crate::text::contains_char(value, '\\') {
        message.append(" にパスらしき文字（':' や '\\'）を含めることはできません");
        return Err(message);
    }
    if contains_control(value) {
        message.append(" に制御文字を含めることはできません");
        return Err(message);
    }
    Ok(())
}

/// There is white space in `s`.
pub open spec fn has_space(s: Seq<char>) -> bool {
    exists|i: int| 0 <= i < s.len() && is_space(#[trigger] s[i])
}

/// The text can be an extension once the dots before it are gone.
pub open spec fn is_extension(s: Seq<char>) -> bool {
    &&& s.len() > 0
    &&& !s.contains('/')
    &&& !s.contains('\\')
    &&& !s.contains(':')
    &&& !s.contains('*')
    &&& !has_space(s)
}

/// An extension as rules keep it, or what is wrong with it.
pub open spec fn normalized_extension(ext: Seq<char>) -> Result<Seq<char>, Seq<char>> {
    let bare = trim_start_of(ext, '.');
    if is_extension(bare) {
        Ok(lowercase(bare))
    } else {
        Err("拡張子 '"@ + ext + "' は使用できません"@)
    }
}

fn contains_space(s: &str) -> (r: bool)
    ensures
        r == has_space(s@),
{
    let chars = chars_of(s);
    let mut i: usize = 0;
    while i < chars.len()
        invariant
            i <= chars@.len(),
            chars@ == s@,
            forall|j: int| 0 <= j < i ==> !is_space(#[trigger] chars@[j]),
        decreases chars@.len() - i,
    {
        if is_whitespace(chars[i]) {
            assert(is_space(s@[i as int]));
            return true;
        }
        i = i + 1;
    }
    false
}

/// A result of texts, by its value.
pub open spec fn text_result(r: Result<String, String>) -> Result<Seq<char>, Seq<char>> {
    match r {
        Ok(s) => Ok(s@),
        Err(e) => Err(e@),
    }
}

/// An extension as rules keep it: without dots before it, in lower case.
pub fn normalize_extension(ext: &str) -> (r: Result<String, String>)
    ensures
        text_result(r) == normalized_extension(ext@),
{
    let bare = trim_start(ext, '.');
    let chars = chars_of(bare.as_str());
    let b = bare.as_str();
    if chars.len() == 0 || crate::text::contains_char(b, '/') || crate::text::contains_char(b, '\\')
        || crate::text::contains_char(b, ':') || crate::text::contains_char(b, '*')
        || contains_space(b) {
        let mut message = "拡張子 '".to_owned();
        message.append(ext);
        message.append("' は使用できません");
        return Err(message);
    }
    Ok(to_lowercase(b))
}

/// The extensions as rules keep them, or what is wrong with the first one that
/// cannot be used.
pub open spec fn normalized_extensions(exts: Seq<Seq<char>>) -> Result<Seq<Seq<char>>, Seq<char>>
    decreases exts.len(),
{
    if exts.len() == 0 {
        Ok(Seq::empty())
    } else {
        match normalized_extensions(exts.drop_last()) {
            Err(e) => Err(e),
            Ok(before) => match normalized_extension(exts.last()) {
                Err(e) => Err(e),
                Ok(ext) => Ok(before.push(ext)),
            },
        }
    }
}

proof fn first_error_stays(exts: Seq<Seq<char>>, n: int)
    requires
        0 <= n <= exts.len(),
        normalized_extensions(exts.take(n)) is Err,
    ensures
        normalized_extensions(exts) == normalized_extensions(exts.take(n)),
    decreases exts.len() - n,
{
    if n < exts.len() {
        assert(exts.take(n + 1).drop_last() =~= exts.take(n));
        first_error_stays(exts, n + 1);
    } else {
        assert(exts.take(n) =~= exts);
    }
}

fn normalize_extensions(exts: &Vec<String>) -> (r: Result<Vec<String>, String>)
    ensures
        match r {
            Ok(list) => normalized_extensions(texts_of(exts@)) == Ok::<Seq<Seq<char>>, Seq<char>>(
                texts_of(list@),
            ),
            Err(message) => normalized_extensions(texts_of(exts@)) == Err::<
                Seq<Seq<char>>,
                Seq<char>,
            >(message@),
        },
{
    let ghost all = texts_of(exts@);
    let mut list: Vec<String> = Vec::new();
    let mut i: usize = 0;
    assert(texts_of(list@) =~= Seq::<Seq<char>>::empty());
    while i < exts.len()
        invariant
            i <= exts@.len(),
            all == texts_of(exts@),
            normalized_extensions(all.take(i as int)) == Ok::<Seq<Seq<char>>, Seq<char>>(
                texts_of(list@),
            ),
        decreases exts@.len() - i,
    {
        let ghost before = list@;
        assert(all.take(i + 1).drop_last() =~= all.take(i as int));
        assert(all.take(i + 1).last() == exts@[i as int]@);
        match normalize_extension(exts[i].as_str()) {
            Ok(ext) => {
                list.push(ext);
                assert(texts_of(list@) =~= texts_of(before).push(ext@));
            },
            Err(message) => {
                proof {
                    first_error_stays(all, i + 1);
                }
                return Err(message);
            },
        }
        i = i + 1;
    }
    assert(all.take(i as int) =~= all);
    Ok(list)
}

// ---- The rules that are added ----

/// What a user's rule takes, or what is wrong with it.
pub open spec fn wanted_match(raw: RawUserRule) -> Result<MatchKindView, Seq<char>> {
    match raw.match_kind {
        None => Err("match は必須です"@),
        Some(RawMatchKind::All) => Ok(MatchKindView::All),
        Some(RawMatchKind::Extension { extensions }) => if extensions@.len() == 0 {
            Err("match.kind が Extension の場合、extensions は1件以上必要です"@)
        } else {
            match normalized_extensions(texts_of(extensions@)) {
                Ok(exts) => Ok(MatchKindView::Extension(exts)),
                Err(e) => Err(e),
            }
        },
        Some(RawMatchKind::OlderThan) => if raw.age_threshold_days is None {
            Err("match.kind が OlderThan の場合、age_threshold_days が必須です"@)
        } else {
            Ok(MatchKindView::OlderThan)
        },
    }
}

/// The safety of a user's rule, or what is wrong with it: looking at it is the
/// rule unless set otherwise, and it is never called safe.
pub open spec fn wanted_safety(raw: RawUserRule) -> Result<Safety, Seq<char>> {
    match raw.safety {
        None => Ok(Safety::Review),
        Some(name) => if name@ == "Safe"@ {
            Err(
                "ユーザー定義ルールに safety: Safe は指定できません（既定 Review、Caution まで昇格可）"@,
            )
        } else {
            match safety_named(name@) {
                Some(safety) => Ok(safety),
                None => Err(unknown_safety(name@)),
            }
        },
    }
}

/// What is wrong with a text that has to be there.
pub open spec fn needed_text_error(
    value: Option<String>,
    missing: Seq<char>,
    field: Seq<char>,
    max_len: nat,
) -> Option<Seq<char>> {
    match value {
        None => Some(missing),
        Some(text) => text_error(text@, field, max_len),
    }
}

/// What is wrong with the id of a user's rule, if it has one.
pub open spec fn needed_id_error(
    id: Option<String>,
    existing: Seq<Seq<char>>,
    seen: Seq<Seq<char>>,
) -> Option<Seq<char>> {
    match id {
        None => Some("id は必須です"@),
        Some(text) => id_error(text@, existing, seen),
    }
}

/// Where a user's rule looks, or what is wrong with that.
pub open spec fn wanted_base(raw: RawUserRule) -> Result<KnownDir, Seq<char>> {
    match raw.base {
        None => Err("base は必須です"@),
        Some(name) => match base_named(name@) {
            Some(base) => Ok(base),
            None => Err(refused_base(name@)),
        },
    }
}

/// A threshold within the range that thresholds can have.
pub open spec fn wanted_days(days: Option<u64>) -> Option<u64> {
    match days {
        Some(d) => Some(clamped_days(d)),
        None => None,
    }
}

/// The rule that a user wrote, or the first thing that is wrong with it.
/// `existing` are the ids in use, `seen` those of the rules added before.
pub open spec fn user_rule(
    raw: RawUserRule,
    existing: Seq<Seq<char>>,
    seen: Seq<Seq<char>>,
) -> Result<RuleView, Seq<char>> {
    let label_error = needed_text_error(
        raw.label,
        "label は必須です"@,
        "label"@,
        LABEL_MAX_LEN as nat,
    );
    let description_error = needed_text_error(
        raw.description,
        "description は必須です"@,
        "description"@,
        DESCRIPTION_MAX_LEN as nat,
    );
    if raw.has_needs_admin {
        Err("needs_admin はユーザー定義ルールでは指定できません（常に false 扱いです）"@)
    } else if let Some(e) = needed_id_error(raw.id, existing, seen) {
        Err(e)
    } else if let Some(e) = label_error {
        Err(e)
    } else if let Some(e) = description_error {
        Err(e)
    } else if let Err(e) = wanted_base(raw) {
        Err(e)
    } else if let Err(e) = wanted_safety(raw) {
        Err(e)
    } else if let Err(e) = wanted_match(raw) {
        Err(e)
    } else {
        Ok(
            RuleView {
                id: raw.id->0@,
                label: raw.label->0@,
                description: raw.description->0@,
                base: wanted_base(raw)->Ok_0,
                match_kind: wanted_match(raw)->Ok_0,
                needs_admin: false,
                safety: wanted_safety(raw)->Ok_0,
                age_threshold_days: wanted_days(raw.age_threshold_days),
                large_file_threshold_bytes: None,
                is_user_defined: true,
            },
        )
    }
}

fn match_of(raw: &RawUserRule) -> (r: Result<MatchKind, String>)
    ensures
        match r {
            Ok(kind) => wanted_match(*raw) == Ok::<MatchKindView, Seq<char>>(kind@),
            Err(e) => wanted_match(*raw) == Err::<MatchKindView, Seq<char>>(e@),
        },
{
    match &raw.match_kind {
        None => Err("match は必須です".to_owned()),
        Some(RawMatchKind::All) => Ok(MatchKind::All),
        Some(RawMatchKind::Extension { extensions }) => {
            if extensions.len() == 0 {
                return Err(
                    "match.kind が Extension の場合、extensions は1件以上必要です".to_owned(),
                );
            }
            match normalize_extensions(extensions) {
                Ok(exts) => Ok(MatchKind::Extension(exts)),
                Err(e) => Err(e),
            }
        },
        Some(RawMatchKind::OlderThan) => {
            if raw.age_threshold_days.is_none() {
                return Err(
                    "match.kind が OlderThan の場合、age_threshold_days が必須です".to_owned(),
                );
            }
            Ok(MatchKind::OlderThan)
        },
    }
}

fn safety_of_raw(raw: &RawUserRule) -> (r: Result<Safety, String>)
    ensures
        match r {
            Ok(safety) => wanted_safety(*raw) == Ok::<Safety, Seq<char>>(safety),
            Err(e) => wanted_safety(*raw) == Err::<Safety, Seq<char>>(e@),
        },
{
    match &raw.safety {
        None => Ok(Safety::Review),
        Some(name) => {
            if same_text(name.as_str(), "Safe") {
                return Err(
                    "ユーザー定義ルールに safety: Safe は指定できません（既定 Review、Caution まで昇格可）".to_owned(),
                );
            }
            parse_safety(name.as_str())
        },
    }
}

fn base_of_raw(raw: &RawUserRule) -> (r: Result<KnownDir, String>)
    ensures
        match r {
            Ok(base) => wanted_base(*raw) == Ok::<KnownDir, Seq<char>>(base),
            Err(e) => wanted_base(*raw) == Err::<KnownDir, Seq<char>>(e@),
        },
{
    match &raw.base {
        None => Err("base は必須です".to_owned()),
        Some(name) => parse_allowed_base(name.as_str()),
    }
}

fn needed_text(value: &Option<String>, missing: &str, field: &str, max_len: usize) -> (r: Result<
    String,
    String,
>)
    ensures
        match r {
            Ok(text) => needed_text_error(*value, missing@, field@, max_len as nat) is None
                && maybe_text(*value) == Some(text@),
            Err(e) => needed_text_error(*value, missing@, field@, max_len as nat) == Some(e@),
        },
{
    match value {
        None => Err(missing.to_owned()),
        Some(text) => match validate_text(text.as_str(), field, max_len) {
            Ok(_) => Ok(text.clone()),
            Err(e) => Err(e),
        },
    }
}

/// The rule that a user wrote, or the first thing that is wrong with it.
pub fn build_user_rule(
    raw: &RawUserRule,
    existing_ids: &Vec<String>,
    seen_ids: &Vec<String>,
) -> (r: Result<Rule, String>)
    ensures
        match r {
            Ok(rule) => user_rule(*raw, texts_of(existing_ids@), texts_of(seen_ids@)) == Ok::<
                RuleView,
                Seq<char>,
            >(rule@),
            Err(e) => user_rule(*raw, texts_of(existing_ids@), texts_of(seen_ids@)) == Err::<
                RuleView,
                Seq<char>,
            >(e@),
        },
{
    if raw.has_needs_admin {
        return Err(
            "needs_admin はユーザー定義ルールでは指定できません（常に false 扱いです）".to_owned(),
        );
    }
    let id = match &raw.id {
        None => return Err("id は必須です".to_owned()),
        Some(id) => id,
    };
    match validate_id(id.as_str(), existing_ids, seen_ids) {
        Ok(_) => {},
        Err(e) => return Err(e),
    }
    let label = match needed_text(&raw.label, "label は必須です", "label", LABEL_MAX_LEN) {
        Ok(label) => label,
        Err(e) => return Err(e),
    };
    let description = match needed_text(
        &raw.description,
        "description は必須です",
        "description",
        DESCRIPTION_MAX_LEN,
    ) {
        Ok(description) => description,
        Err(e) => return Err(e),
    };
    let base = match base_of_raw(raw) {
        Ok(base) => base,
        Err(e) => return Err(e),
    };
    let safety = match safety_of_raw(raw) {
        Ok(safety) => safety,
        Err(e) => return Err(e),
    };
    let match_kind = match match_of(raw) {
        Ok(kind) => kind,
        Err(e) => return Err(e),
    };
    let age_threshold_days = match raw.age_threshold_days {
        Some(days) => Some(clamp_days(days)),
        None => None,
    };
    Ok(
        Rule {
            id: id.clone(),
            label,
            description,
            base,
            match_kind,
            needs_admin: false,
            safety,
            age_threshold_days,
            large_file_threshold_bytes: None,
            is_user_defined: true,
        },
    )
}

// ---- The changes to the built-in rules ----

/// The place of the first rule with the id `id`, or the number of rules where
/// there is none.
pub open spec fn place_of(rules: Seq<RuleView>, id: Seq<char>) -> int
    decreases rules.len(),
{
    if rules.len() == 0 || rules[0].id == id {
        0
    } else {
        1 + place_of(rules.drop_first(), id)
    }
}

/// The issue `message` with the rule `id`.
pub open spec fn issue_of(id: Seq<char>, message: Seq<char>) -> IssueView {
    IssueView { rule_id: Some(id), message }
}

/// What is reported when a change speaks of administrator rights.
pub open spec fn admin_issues(id: Seq<char>, over: RuleOverride) -> Seq<IssueView> {
    if over.has_needs_admin {
        seq![
            issue_of(
                id,
                "'"@ + id
                    + "' の overrides.needs_admin は無視されました（needs_admin はファイルから変更できません）"@,
            ),
        ]
    } else {
        Seq::empty()
    }
}

/// What is reported of the safety that a change asks for, where the rule has
/// the safety `current`.
pub open spec fn safety_issues(id: Seq<char>, over: RuleOverride, current: Safety) -> Seq<
    IssueView,
> {
    match over.safety {
        None => Seq::empty(),
        Some(name) => match safety_named(name@) {
            None => seq![issue_of(id, "'"@ + id + "' の safety: "@ + unknown_safety(name@))],
            Some(safety) => if safety.risk() < current.risk() {
                seq![
                    issue_of(
                        id,
                        "'"@ + id + "' の safety をリスクの低い方向（"@ + safety_text(current) + " → "@
                            + safety_text(safety) + "）には変更できません"@,
                    ),
                ]
            } else {
                Seq::empty()
            },
        },
    }
}

/// The safety after a change: what the change asks for, unless that is unknown
/// or less careful.
pub open spec fn changed_safety(over: RuleOverride, current: Safety) -> Safety {
    match over.safety {
        None => current,
        Some(name) => match safety_named(name@) {
            None => current,
            Some(safety) => if safety.risk() < current.risk() {
                current
            } else {
                safety
            },
        },
    }
}

/// A rule after a change.
pub open spec fn changed_rule(rule: RuleView, over: RuleOverride) -> RuleView {
    RuleView {
        safety: changed_safety(over, rule.safety),
        age_threshold_days: match over.age_threshold_days {
            Some(days) => Some(clamped_days(days)),
            None => rule.age_threshold_days,
        },
        ..rule
    }
}

/// The rules with other ids.
pub open spec fn other_than(id: Seq<char>) -> spec_fn(RuleView) -> bool {
    |r: RuleView| r.id != id
}

/// The rules after one change.
pub open spec fn changed_rules(rules: Seq<RuleView>, id: Seq<char>, over: RuleOverride) -> Seq<
    RuleView,
> {
    let i = place_of(rules, id);
    if i == rules.len() {
        rules
    } else if over.enabled == Some(false) {
        rules.update(i, changed_rule(rules[i], over)).filter(other_than(id))
    } else {
        rules.update(i, changed_rule(rules[i], over))
    }
}

/// What is reported of one change.
pub open spec fn change_issues(rules: Seq<RuleView>, id: Seq<char>, over: RuleOverride) -> Seq<
    IssueView,
> {
    let i = place_of(rules, id);
    admin_issues(id, over) + if i == rules.len() {
        seq![
            issue_of(
                id,
                "組み込みルール '"@ + id
                    + "' が見つかりません（overrides はルールの追加には使えません。新規ルールは rules に書いてください）"@,
            ),
        ]
    } else {
        safety_issues(id, over, rules[i].safety)
    }
}

/// The rules after all changes, made one after the other.
pub open spec fn rules_after(
    rules: Seq<RuleView>,
    overrides: Seq<(String, RuleOverride)>,
) -> Seq<RuleView>
    decreases overrides.len(),
{
    if overrides.len() == 0 {
        rules
    } else {
        changed_rules(
            rules_after(rules, overrides.drop_last()),
            overrides.last().0@,
            overrides.last().1,
        )
    }
}

/// What is reported of all changes.
pub open spec fn issues_after(
    rules: Seq<RuleView>,
    overrides: Seq<(String, RuleOverride)>,
) -> Seq<IssueView>
    decreases overrides.len(),
{
    if overrides.len() == 0 {
        Seq::empty()
    } else {
        issues_after(rules, overrides.drop_last()) + change_issues(
            rules_after(rules, overrides.drop_last()),
            overrides.last().0@,
            overrides.last().1,
        )
    }
}

proof fn place_is_first(rules: Seq<RuleView>, id: Seq<char>, i: int)
    requires
        0 <= i <= rules.len(),
        forall|j: int| 0 <= j < i ==> (#[trigger] rules[j]).id != id,
        i < rules.len() ==> rules[i].id == id,
    ensures
        place_of(rules, id) == i,
    decreases i,
{
    if i > 0 {
        assert(rules[0].id != id);
        assert forall|j: int| 0 <= j < i - 1 implies (#[trigger] rules.drop_first()[j]).id
            != id by {
            assert(rules.drop_first()[j] == rules[j + 1]);
        }
        if i < rules.len() {
            assert(rules.drop_first()[i - 1] == rules[i]);
        }
        place_is_first(rules.drop_first(), id, i - 1);
    }
}

proof fn place_is_there(rules: Seq<RuleView>, id: Seq<char>)
    ensures
        0 <= place_of(rules, id) <= rules.len(),
        forall|j: int| 0 <= j < place_of(rules, id) ==> (#[trigger] rules[j]).id != id,
        place_of(rules, id) < rules.len() ==> rules[place_of(rules, id)].id == id,
    decreases rules.len(),
{
    if rules.len() > 0 && rules[0].id != id {
        let rest = rules.drop_first();
        place_is_there(rest, id);
        assert forall|j: int| 0 <= j < place_of(rules, id) implies (#[trigger] rules[j]).id
            != id by {
            if j > 0 {
                assert(rest[j - 1] == rules[j]);
            }
        }
        let p = place_of(rest, id);
        if p < rest.len() {
            assert(rest[p] == rules[p + 1]);
        }
    }
}

fn find_place(rules: &Vec<Rule>, id: &str) -> (r: usize)
    ensures
        r == place_of(rule_views(rules@), id@),
        r <= rules@.len(),
{
    let ghost views = rule_views(rules@);
    let mut i: usize = 0;
    while i < rules.len()
        invariant
            i <= rules@.len(),
            views == rule_views(rules@),
            forall|j: int| 0 <= j < i ==> (#[trigger] views[j]).id != id@,
        decreases rules@.len() - i,
    {
        if same_text(rules[i].id.as_str(), id) {
            proof {
                place_is_first(views, id@, i as int);
            }
            return i;
        }
        i = i + 1;
    }
    proof {
        place_is_first(views, id@, i as int);
    }
    i
}

fn without_id(rules: &Vec<Rule>, id: &str) -> (r: Vec<Rule>)
    ensures
        rule_views(r@) == rule_views(rules@).filter(other_than(id@)),
{
    let ghost all = rule_views(rules@);
    let ghost keep = other_than(id@);
    let mut r: Vec<Rule> = Vec::new();
    let mut i: usize = 0;
    assert(rule_views(r@) =~= all.take(0).filter(keep)) by {
        reveal(Seq::filter);
    }
    while i < rules.len()
        invariant
            i <= rules@.len(),
            all == rule_views(rules@),
            keep == other_than(id@),
            rule_views(r@) == all.take(i as int).filter(keep),
        decreases rules@.len() - i,
    {
        let rule = &rules[i];
        proof {
            assert(all.take(i + 1) =~= all.take(i as int).push(rule@));
            all.take(i as int).lemma_filter_push(rule@, keep);
        }
        if !same_text(rule.id.as_str(), id) {
            let copy = rule.clone();
            proof {
                views_of_push(r@, copy);
            }
            r.push(copy);
        }
        i = i + 1;
    }
    assert(all.take(i as int) =~= all);
    r
}

fn report(issues: &mut Vec<RuleSetIssue>, id: &str, message: String)
    ensures
        issue_views(final(issues)@) == issue_views(old(issues)@).push(issue_of(id@, message@)),
{
    issues.push(RuleSetIssue { rule_id: Some(id.to_owned()), message });
    assert(issue_views(issues@) =~= issue_views(old(issues)@).push(issue_of(id@, message@)));
}

fn quoted_id(id: &str, rest: &str) -> (r: String)
    ensures
        r@ == "'"@ + id@ + rest@,
{
    let mut r = "'".to_owned();
    r.append(id);
    r.append(rest);
    r
}

/// Decides what becomes of the safety of a rule, and reports what was refused.
fn change_safety(
    id: &str,
    over: &RuleOverride,
    current: Safety,
    issues: &mut Vec<RuleSetIssue>,
) -> (r: Safety)
    ensures
        r == changed_safety(*over, current),
        issue_views(final(issues)@) == issue_views(old(issues)@) + safety_issues(
            id@,
            *over,
            current,
        ),
{
    let ghost before = issue_views(issues@);
    match &over.safety {
        None => {
            assert(before + Seq::<IssueView>::empty() =~= before);
            current
        },
        Some(name) => match parse_safety(name.as_str()) {
            Ok(safety) => {
                if safety.is_safer_than(current) {
                    let mut message = quoted_id(id, "' の safety をリスクの低い方向（");
                    message.append(safety_name(current));
                    message.append(" → ");
                    message.append(safety_name(safety));
                    message.append("）には変更できません");
                    report(issues, id, message);
                    assert(issue_views(issues@) =~= before + safety_issues(id@, *over, current));
                    current
                } else {
                    assert(before + Seq::<IssueView>::empty() =~= before);
                    safety
                }
            },
            Err(e) => {
                let mut message = quoted_id(id, "' の safety: ");
                message.append(e.as_str());
                report(issues, id, message);
                assert(issue_views(issues@) =~= before + safety_issues(id@, *over, current));
                current
            },
        },
    }
}

/// Makes one change to the rules, and reports what was refused.
fn apply_override(
    rules: &mut Vec<Rule>,
    issues: &mut Vec<RuleSetIssue>,
    id: &str,
    over: &RuleOverride,
)
    ensures
        rule_views(final(rules)@) == changed_rules(rule_views(old(rules)@), id@, *over),
        issue_views(final(issues)@) == issue_views(old(issues)@) + change_issues(
            rule_views(old(rules)@),
            id@,
            *over,
        ),
{
    let ghost before = issue_views(issues@);
    let ghost all = rule_views(rules@);
    if over.has_needs_admin {
        report(
            issues,
            id,
            quoted_id(
                id,
                "' の overrides.needs_admin は無視されました（needs_admin はファイルから変更できません）",
            ),
        );
    }
    assert(issue_views(issues@) =~= before + admin_issues(id@, *over));
    let i: usize = find_place(rules, id);
    if i == rules.len() {
        let mut message = "組み込みルール '".to_owned();
        message.append(id);
        message.append(
            "' が見つかりません（overrides はルールの追加には使えません。新規ルールは rules に書いてください）",
        );
        report(issues, id, message);
        assert(issue_views(issues@) =~= before + change_issues(all, id@, *over));
        return;
    }
    let mut rule = rules[i].clone();
    let safety = change_safety(id, over, rule.safety, issues);
    rule.safety = safety;
    match over.age_threshold_days {
        Some(days) => {
            rule.age_threshold_days = Some(clamp_days(days));
        },
        None => {},
    }
    assert(rule@ == changed_rule(all[i as int], *over));
    assert(issue_views(issues@) =~= before + change_issues(all, id@, *over));
    rules.set(i, rule);
    assert(rule_views(rules@) =~= all.update(i as int, rule@));
    if over.enabled == Some(false) {
        let kept = without_id(rules, id);
        *rules = kept;
    }
}

// ---- All of it ----

/// The ids of a list of rules.
pub open spec fn ids_of(rules: Seq<RuleView>) -> Seq<Seq<char>> {
    rules.map_values(|r: RuleView| r.id)
}

/// The rules that are added. `existing` are the ids in use.
pub open spec fn added_rules(raws: Seq<RawUserRule>, existing: Seq<Seq<char>>) -> Seq<RuleView>
    decreases raws.len(),
{
    if raws.len() == 0 {
        Seq::empty()
    } else {
        let before = added_rules(raws.drop_last(), existing);
        match user_rule(raws.last(), existing, ids_of(before)) {
            Ok(rule) => before.push(rule),
            Err(_) => before,
        }
    }
}

/// What is reported of the rules that a user wrote.
pub open spec fn added_issues(raws: Seq<RawUserRule>, existing: Seq<Seq<char>>) -> Seq<IssueView>
    decreases raws.len(),
{
    if raws.len() == 0 {
        Seq::empty()
    } else {
        let before = added_issues(raws.drop_last(), existing);
        match user_rule(raws.last(), existing, ids_of(added_rules(raws.drop_last(), existing))) {
            Ok(_) => before,
            Err(message) => before.push(
                IssueView { rule_id: maybe_text(raws.last().id), message },
            ),
        }
    }
}

/// The rules a user wrote that are looked at: no more than the limit.
pub open spec fn considered(raws: Seq<RawUserRule>) -> Seq<RawUserRule> {
    if raws.len() <= MAX_USER_RULES {
        raws
    } else {
        raws.take(MAX_USER_RULES as int)
    }
}

/// What is reported when there are more rules than the limit.
pub open spec fn excess_issues(n: nat) -> Seq<IssueView> {
    if n <= MAX_USER_RULES {
        Seq::empty()
    } else {
        seq![
            IssueView {
                rule_id: None,
                message: "ユーザー定義ルールは最大 "@ + decimal(MAX_USER_RULES as nat) + " 件までです（"@
                    + decimal(n) + "件のうち超過分は無視しました）"@,
            },
        ]
    }
}

/// The rules under the settings `config` and the rule file `file`.
pub open spec fn resolved_rules(config: Config, file: Option<RuleFile>) -> Seq<RuleView> {
    match file {
        None => builtin(config),
        Some(f) => {
            let base = rules_after(builtin(config), f.overrides@);
            base + added_rules(considered(f.rules@), ids_of(base))
        },
    }
}

/// What is reported of the rule file `file`.
pub open spec fn resolved_issues(config: Config, file: Option<RuleFile>) -> Seq<IssueView> {
    match file {
        None => Seq::empty(),
        Some(f) => {
            let base = rules_after(builtin(config), f.overrides@);
            issues_after(builtin(config), f.overrides@) + added_issues(
                considered(f.rules@),
                ids_of(base),
            ) + excess_issues(f.rules@.len())
        },
    }
}

fn ids(rules: &Vec<Rule>) -> (r: Vec<String>)
    ensures
        texts_of(r@) == ids_of(rule_views(rules@)),
{
    let mut r: Vec<String> = Vec::new();
    let mut i: usize = 0;
    while i < rules.len()
        invariant
            i <= rules@.len(),
            r@.len() == i,
            forall|j: int| 0 <= j < i ==> (#[trigger] r@[j])@ == rules@[j].id@,
        decreases rules@.len() - i,
    {
        r.push(rules[i].id.clone());
        i = i + 1;
    }
    assert(texts_of(r@) =~= ids_of(rule_views(rules@)));
    r
}

fn apply_overrides(
    rules: &mut Vec<Rule>,
    issues: &mut Vec<RuleSetIssue>,
    overrides: &Vec<(String, RuleOverride)>,
)
    ensures
        rule_views(final(rules)@) == rules_after(rule_views(old(rules)@), overrides@),
        issue_views(final(issues)@) == issue_views(old(issues)@) + issues_after(
            rule_views(old(rules)@),
            overrides@,
        ),
{
    let ghost all = rule_views(rules@);
    let ghost before = issue_views(issues@);
    let mut i: usize = 0;
    assert(before + Seq::<IssueView>::empty() =~= before);
    while i < overrides.len()
        invariant
            i <= overrides@.len(),
            rule_views(rules@) == rules_after(all, overrides@.take(i as int)),
            issue_views(issues@) == before + issues_after(all, overrides@.take(i as int)),
        decreases overrides@.len() - i,
    {
        let change = &overrides[i];
        assert(overrides@.take(i + 1).drop_last() =~= overrides@.take(i as int));
        assert(overrides@.take(i + 1).last() == overrides@[i as int]);
        apply_override(rules, issues, change.0.as_str(), &change.1);
        i = i + 1;
        assert(issue_views(issues@) =~= before + issues_after(all, overrides@.take(i as int)));
    }
    assert(overrides@.take(i as int) =~= overrides@);
}

fn add_user_rules(
    rules: &mut Vec<Rule>,
    issues: &mut Vec<RuleSetIssue>,
    raws: &Vec<RawUserRule>,
)
    ensures
        rule_views(final(rules)@) == rule_views(old(rules)@) + added_rules(
            considered(raws@),
            ids_of(rule_views(old(rules)@)),
        ),
        issue_views(final(issues)@) == issue_views(old(issues)@) + added_issues(
            considered(raws@),
            ids_of(rule_views(old(rules)@)),
        ),
{
    let ghost all = rule_views(rules@);
    let ghost before = issue_views(issues@);
    let existing = ids(rules);
    let mut seen: Vec<String> = Vec::new();
    let n: usize = if raws.len() <= MAX_USER_RULES {
        raws.len()
    } else {
        MAX_USER_RULES
    };
    let ghost list = considered(raws@);
    let mut i: usize = 0;
    assert(rule_views(rules@) =~= all + added_rules(list.take(0), ids_of(all)));
    assert(issue_views(issues@) =~= before + added_issues(list.take(0), ids_of(all)));
    assert(texts_of(seen@) =~= ids_of(added_rules(list.take(0), ids_of(all))));
    while i < n
        invariant
            i <= n,
            n <= raws@.len(),
            n == list.len(),
            list == considered(raws@),
            texts_of(existing@) == ids_of(all),
            texts_of(seen@) == ids_of(added_rules(list.take(i as int), ids_of(all))),
            rule_views(rules@) == all + added_rules(list.take(i as int), ids_of(all)),
            issue_views(issues@) == before + added_issues(list.take(i as int), ids_of(all)),
        decreases n - i,
    {
        let raw = &raws[i];
        let ghost rules_so_far = rules@;
        let ghost seen_so_far = seen@;
        let ghost issues_so_far = issues@;
        let ghost added = added_rules(list.take(i as int), ids_of(all));
        assert(list.take(i + 1).drop_last() =~= list.take(i as int));
        assert(list.take(i + 1).last() == *raw);
        match build_user_rule(raw, &existing, &seen) {
            Ok(rule) => {
                seen.push(rule.id.clone());
                assert(texts_of(seen@) =~= texts_of(seen_so_far).push(rule@.id));
                assert(ids_of(added.push(rule@)) =~= ids_of(added).push(rule@.id));
                proof {
                    views_of_push(rules@, rule);
                }
                rules.push(rule);
                assert(all + added.push(rule@) =~= (all + added).push(rule@));
            },
            Err(message) => {
                let rule_id = match &raw.id {
                    Some(id) => Some(id.clone()),
                    None => None,
                };
                let issue = RuleSetIssue { rule_id, message };
                issues.push(issue);
                assert(issue_views(issues@) =~= issue_views(issues_so_far).push(issue@));
                assert(issue_views(issues@) =~= before + added_issues(
                    list.take(i + 1),
                    ids_of(all),
                ));
            },
        }
        i = i + 1;
    }
    assert(list.take(i as int) =~= list);
}

/// The rules under the settings `config` and the rule file `file`, and what is
/// wrong with the file. Without a file they are the built-in rules.
pub fn resolve_rules(config: &Config, file: Option<&RuleFile>) -> (r: (
    Vec<Rule>,
    Vec<RuleSetIssue>,
))
    ensures
        rule_views(r.0@) == resolved_rules(*config, file_value(file)),
        issue_views(r.1@) == resolved_issues(*config, file_value(file)),
{
    let mut rules = builtin_rules(config);
    let mut issues: Vec<RuleSetIssue> = Vec::new();
    assert(issue_views(issues@) =~= Seq::<IssueView>::empty());
    match file {
        None => {},
        Some(f) => {
            apply_overrides(&mut rules, &mut issues, &f.overrides);
            assert(issue_views(issues@) =~= issues_after(builtin(*config), f.overrides@));
            add_user_rules(&mut rules, &mut issues, &f.rules);
            let ghost so_far = issue_views(issues@);
            let n: usize = f.rules.len();
            if n > MAX_USER_RULES {
                let mut message = "ユーザー定義ルールは最大 ".to_owned();
                push_decimal(&mut message, MAX_USER_RULES as u64);
                message.append(" 件までです（");
                push_decimal(&mut message, n as u64);
                message.append("件のうち超過分は無視しました）");
                issues.push(RuleSetIssue { rule_id: None, message });
            }
            assert(issue_views(issues@) =~= so_far + excess_issues(n as nat));
        },
    }
    (rules, issues)
}

/// The file itself.
pub open spec fn file_value(file: Option<&RuleFile>) -> Option<RuleFile> {
    match file {
        Some(f) => Some(*f),
        None => None,
    }
}

/// The rules in use, and what was wrong with the rule file.
#[derive(Debug)]
pub struct RuleSet {
    rules: Vec<Rule>,
    issues: Vec<RuleSetIssue>,
}

/// The value of a [`RuleSet`].
#[verifier::ext_equal]
pub struct RuleSetView {
    pub rules: Seq<RuleView>,
    pub issues: Seq<IssueView>,
}

impl View for RuleSet {
    type V = RuleSetView;

    closed spec fn view(&self) -> RuleSetView {
        RuleSetView { rules: rule_views(self.rules@), issues: issue_views(self.issues@) }
    }
}

/// What became of reading the rule file.
#[derive(Debug)]
pub enum RuleSource {
    /// There is none, or no place for one.
    Missing,
    /// It could not be read.
    Unreadable {
        /// Where it is.
        path: String,
        /// Why not.
        error: String,
    },
    /// It is no rule file.
    Corrupt {
        /// Where it is.
        path: String,
        /// Why not.
        error: String,
    },
    /// It was read.
    Parsed(RuleFile),
}

/// The built-in rules alone, with one thing to report.
pub open spec fn builtin_with_issue(config: Config, message: Seq<char>) -> RuleSetView {
    RuleSetView {
        rules: builtin(config),
        issues: seq![IssueView { rule_id: None, message }],
    }
}

/// The rules in use under the settings `config`, after the rule file came back
/// as `source`.
pub open spec fn loaded(config: Config, source: RuleSource) -> RuleSetView {
    let builtin_only = RuleSetView { rules: builtin(config), issues: Seq::empty() };
    if !config.user_rules_enabled {
        builtin_only
    } else {
        match source {
            RuleSource::Missing => builtin_only,
            RuleSource::Unreadable { path, error } => builtin_with_issue(
                config,
                "ルール定義ファイル（"@ + path@ + "）を読み込めませんでした: "@ + error@
                    + "。組み込みルールのみで続行します。"@,
            ),
            RuleSource::Corrupt { path, error } => builtin_with_issue(
                config,
                "ルール定義ファイル（"@ + path@ + "）の解析に失敗しました: "@ + error@
                    + "。組み込みルールのみで続行します。"@,
            ),
            RuleSource::Parsed(file) => if file.schema_version > CURRENT_SCHEMA_VERSION {
                builtin_with_issue(
                    config,
                    "ルール定義ファイルの schema_version（"@ + decimal(file.schema_version as nat)
                        + "）はこのバージョンの pc-cleaner では未対応です（対応: "@ + decimal(
                        CURRENT_SCHEMA_VERSION as nat,
                    ) + "以下）。組み込みルールのみで続行します。"@,
                )
            } else {
                RuleSetView {
                    rules: resolved_rules(config, Some(file)),
                    issues: resolved_issues(config, Some(file)),
                }
            },
        }
    }
}

fn file_message(path: &str, middle: &str, error: &str) -> (r: String)
    ensures
        r@ == "ルール定義ファイル（"@ + path@ + middle@ + error@
            + "。組み込みルールのみで続行します。"@,
{
    let mut r = "ルール定義ファイル（".to_owned();
    r.append(path);
    r.append(middle);
    r.append(error);
    r.append("。組み込みルールのみで続行します。");
    r
}

/// The rules that are user's own.
pub open spec fn is_own() -> spec_fn(RuleView) -> bool {
    |r: RuleView| r.is_user_defined
}

impl RuleSet {
    /// The built-in rules alone.
    pub fn builtin(config: &Config) -> (r: RuleSet)
        ensures
            r@ == (RuleSetView { rules: builtin(*config), issues: Seq::empty() }),
    {
        let rules = builtin_rules(config);
        let issues: Vec<RuleSetIssue> = Vec::new();
        assert(issue_views(issues@) =~= Seq::<IssueView>::empty());
        RuleSet { rules, issues }
    }

    fn builtin_only(config: &Config, message: String) -> (r: RuleSet)
        ensures
            r@ == builtin_with_issue(*config, message@),
    {
        let rules = builtin_rules(config);
        let mut issues: Vec<RuleSetIssue> = Vec::new();
        issues.push(RuleSetIssue { rule_id: None, message });
        assert(issue_views(issues@) =~= builtin_with_issue(*config, message@).issues);
        RuleSet { rules, issues }
    }

    /// The rules in use under the settings `config`, after the rule file came
    /// back as `source`.
    pub fn load(config: &Config, source: &RuleSource) -> (r: RuleSet)
        ensures
            r@ == loaded(*config, *source),
    {
        if !config.user_rules_enabled {
            return RuleSet::builtin(config);
        }
        match source {
            RuleSource::Missing => RuleSet::builtin(config),
            RuleSource::Unreadable { path, error } => RuleSet::builtin_only(
                config,
                file_message(path.as_str(), "）を読み込めませんでした: ", error.as_str()),
            ),
            RuleSource::Corrupt { path, error } => RuleSet::builtin_only(
                config,
                file_message(path.as_str(), "）の解析に失敗しました: ", error.as_str()),
            ),
            RuleSource::Parsed(file) => {
                if file.schema_version > CURRENT_SCHEMA_VERSION {
                    let mut message = "ルール定義ファイルの schema_version（".to_owned();
                    push_decimal(&mut message, file.schema_version as u64);
                    message.append("）はこのバージョンの pc-cleaner では未対応です（対応: ");
                    push_decimal(&mut message, CURRENT_SCHEMA_VERSION as u64);
                    message.append("以下）。組み込みルールのみで続行します。");
                    return RuleSet::builtin_only(config, message);
                }
                let (rules, issues) = resolve_rules(config, Some(file));
                RuleSet { rules, issues }
            },
        }
    }

    /// The rules with one of the given safeties that a process can scan and
    /// delete, in their order.
    pub fn for_safeties(&self, safeties: &[Safety], elevated: bool) -> (r: Vec<Rule>)
        ensures
            rule_views(r@) == self@.rules.filter(permitted_when(elevated)).filter(
                with_safety(safeties@),
            ),
    {
        let permitted = keep_permitted(&self.rules, elevated);
        keep_safeties(&permitted, safeties)
    }

    /// All rules.
    pub fn all(&self) -> (r: &[Rule])
        ensures
            rule_views(r@) == self@.rules,
    {
        self.rules.as_slice()
    }

    /// What was wrong with the rule file.
    pub fn issues(&self) -> (r: &[RuleSetIssue])
        ensures
            issue_views(r@) == self@.issues,
    {
        self.issues.as_slice()
    }

    /// How many rules are the user's own.
    pub fn user_defined_rule_count(&self) -> (r: usize)
        ensures
            r == self@.rules.filter(is_own()).len(),
    {
        count_own(&self.rules)
    }
}

/// How many of the rules are the user's own.
pub(crate) fn count_own(rules: &Vec<Rule>) -> (r: usize)
    ensures
        r == rule_views(rules@).filter(is_own()).len(),
{
    let ghost all = rule_views(rules@);
    let mut n: usize = 0;
    let mut i: usize = 0;
    assert(all.take(0).filter(is_own()).len() == 0) by {
        reveal(Seq::filter);
    }
    while i < rules.len()
        invariant
            i <= rules@.len(),
            n <= i,
            all == rule_views(rules@),
            n == all.take(i as int).filter(is_own()).len(),
        decreases rules@.len() - i,
    {
        let rule = &rules[i];
        proof {
            assert(all.take(i + 1) =~= all.take(i as int).push(rule@));
            all.take(i as int).lemma_filter_push(rule@, is_own());
        }
        if rule.is_user_defined {
            n = n + 1;
        }
        i = i + 1;
    }
    assert(all.take(i as int) =~= all);
    n
}

/// Where the rule file is kept: `rules.json` in the platform's settings
/// directory, where there is one.
pub fn rules_file_path<P: Platform + ?Sized>(platform: &P) -> (r: Option<FilePath>)
    ensures
        r is Some == platform.settings_dir() is Some,
        r is Some ==> is_file_in(r->0@, platform.settings_dir()->0, "rules.json"@),
{
    file_in_dir(platform.config_dir(), "rules.json")
}

/// The rule file that has to be read, where the user's rules are in use and
/// there is a place for them.
pub fn rules_file_to_read<P: Platform + ?Sized>(platform: &P, config: &Config) -> (r: Option<
    FilePath,
>)
    ensures
        r is Some == (config.user_rules_enabled && platform.settings_dir() is Some),
        r is Some ==> is_file_in(r->0@, platform.settings_dir()->0, "rules.json"@),
{
    if config.user_rules_enabled {
        rules_file_path(platform)
    } else {
        None
    }
}

// ---- What the rule file cannot do ----

/// `new` is `old`, looked at no less carefully: only the safety and the age
/// threshold may differ, and the safety is not lowered.
pub open spec fn is_tightened(old_rule: RuleView, new_rule: RuleView) -> bool {
    &&& new_rule == RuleView {
        safety: new_rule.safety,
        age_threshold_days: new_rule.age_threshold_days,
        ..old_rule
    }
    &&& old_rule.safety.risk() <= new_rule.safety.risk()
    &&& new_rule.age_threshold_days != old_rule.age_threshold_days
        ==> new_rule.age_threshold_days is Some && AGE_THRESHOLD_MIN_DAYS
        <= new_rule.age_threshold_days->0 <= AGE_THRESHOLD_MAX_DAYS
}

proof fn changed_rule_is_tightened(rules: Seq<RuleView>, id: Seq<char>, over: RuleOverride, k: int) -> (i: int)
    requires
        0 <= k < changed_rules(rules, id, over).len(),
    ensures
        0 <= i < rules.len(),
        is_tightened(rules[i], changed_rules(rules, id, over)[k]),
{
    place_is_there(rules, id);
    let p = place_of(rules, id);
    if p == rules.len() {
        k
    } else {
        let changed = rules.update(p, changed_rule(rules[p], over));
        assert forall|i: int| 0 <= i < rules.len() implies is_tightened(
            rules[i],
            #[trigger] changed[i],
        ) by {}
        if over.enabled == Some(false) {
            let kept = changed.filter(other_than(id));
            assert(kept.contains(kept[k]));
            changed.lemma_filter_contains_rev(other_than(id), kept[k]);
            let i = choose|i: int| 0 <= i < changed.len() && changed[i] == kept[k];
            assert(is_tightened(rules[i], changed[i]));
            i
        } else {
            assert(is_tightened(rules[k], changed[k]));
            k
        }
    }
}

proof fn rule_after_is_tightened(
    rules: Seq<RuleView>,
    overrides: Seq<(String, RuleOverride)>,
    k: int,
) -> (i: int)
    requires
        0 <= k < rules_after(rules, overrides).len(),
    ensures
        0 <= i < rules.len(),
        is_tightened(rules[i], rules_after(rules, overrides)[k]),
    decreases overrides.len(),
{
    if overrides.len() == 0 {
        k
    } else {
        let before = rules_after(rules, overrides.drop_last());
        let m = changed_rule_is_tightened(
            before,
            overrides.last().0@,
            overrides.last().1,
            k,
        );
        let i = rule_after_is_tightened(rules, overrides.drop_last(), m);
        assert(is_tightened(rules[i], before[m]));
        assert(is_tightened(before[m], rules_after(rules, overrides)[k]));
        i
    }
}

/// A rule that a user added is confined: it never touches administrator areas,
/// is never called safe, looks only where users' rules may look, has an id of
/// the right form and texts without paths, and thresholds within the range.
pub open spec fn is_confined(rule: RuleView) -> bool {
    &&& rule.is_user_defined
    &&& !rule.needs_admin
    &&& rule.safety != Safety::Safe
    &&& may_look_into(rule.base)
    &&& is_id(rule.id)
    &&& text_error(rule.label, "label"@, LABEL_MAX_LEN as nat) is None
    &&& text_error(rule.description, "description"@, DESCRIPTION_MAX_LEN as nat) is None
    &&& rule.age_threshold_days is Some ==> AGE_THRESHOLD_MIN_DAYS <= rule.age_threshold_days->0
        <= AGE_THRESHOLD_MAX_DAYS
    &&& rule.match_kind is OlderThan ==> rule.age_threshold_days is Some
}

/// The directories that a user's rule can look into.
pub open spec fn may_look_into(base: KnownDir) -> bool {
    base == KnownDir::UserTemp || base == KnownDir::LocalAppData || base == KnownDir::Cache || base
        == KnownDir::Downloads || base == KnownDir::ThumbnailCache
}

proof fn added_rule_is_confined(raws: Seq<RawUserRule>, existing: Seq<Seq<char>>, k: int)
    requires
        0 <= k < added_rules(raws, existing).len(),
    ensures
        is_confined(added_rules(raws, existing)[k]),
        !existing.contains(added_rules(raws, existing)[k].id),
    decreases raws.len(),
{
    let before = added_rules(raws.drop_last(), existing);
    if k < before.len() {
        added_rule_is_confined(raws.drop_last(), existing, k);
    } else {
        let raw = raws.last();
        assert(user_rule(raw, existing, ids_of(before)) is Ok);
    }
}

proof fn added_rules_are_few(raws: Seq<RawUserRule>, existing: Seq<Seq<char>>)
    ensures
        added_rules(raws, existing).len() <= raws.len(),
    decreases raws.len(),
{
    if raws.len() > 0 {
        added_rules_are_few(raws.drop_last(), existing);
    }
}

/// No two rules have the same id.
pub open spec fn have_distinct_ids(rules: Seq<RuleView>) -> bool {
    forall|i: int, j: int|
        0 <= i < j < rules.len() ==> (#[trigger] rules[i]).id != (#[trigger] rules[j]).id
}

proof fn filter_keeps_distinct(rules: Seq<RuleView>, keep: spec_fn(RuleView) -> bool)
    requires
        have_distinct_ids(rules),
    ensures
        have_distinct_ids(rules.filter(keep)),
    decreases rules.len(),
{
    reveal(Seq::filter);
    if rules.len() > 0 {
        let front = rules.drop_last();
        assert forall|i: int, j: int| 0 <= i < j < front.len() implies (#[trigger] front[i]).id != (
        #[trigger] front[j]).id by {
            assert(front[i] == rules[i] && front[j] == rules[j]);
        }
        filter_keeps_distinct(front, keep);
        let kept = front.filter(keep);
        assert forall|i: int| 0 <= i < kept.len() implies (#[trigger] kept[i]).id
            != rules.last().id by {
            assert(kept.contains(kept[i]));
            front.lemma_filter_contains_rev(keep, kept[i]);
            let m = choose|m: int| 0 <= m < front.len() && front[m] == kept[i];
            assert(rules[m] == kept[i]);
        }
    }
}

proof fn changes_keep_distinct(rules: Seq<RuleView>, overrides: Seq<(String, RuleOverride)>)
    requires
        have_distinct_ids(rules),
    ensures
        have_distinct_ids(rules_after(rules, overrides)),
    decreases overrides.len(),
{
    if overrides.len() > 0 {
        changes_keep_distinct(rules, overrides.drop_last());
        let before = rules_after(rules, overrides.drop_last());
        let id = overrides.last().0@;
        let over = overrides.last().1;
        place_is_there(before, id);
        let p = place_of(before, id);
        if p < before.len() {
            let changed = before.update(p, changed_rule(before[p], over));
            assert forall|i: int, j: int| 0 <= i < j < changed.len() implies (
            #[trigger] changed[i]).id != (#[trigger] changed[j]).id by {
                assert(changed[i].id == before[i].id && changed[j].id == before[j].id);
            }
            filter_keeps_distinct(changed, other_than(id));
        }
    }
}

proof fn added_ids_are_distinct(raws: Seq<RawUserRule>, existing: Seq<Seq<char>>)
    ensures
        have_distinct_ids(added_rules(raws, existing)),
    decreases raws.len(),
{
    if raws.len() > 0 {
        added_ids_are_distinct(raws.drop_last(), existing);
        let before = added_rules(raws.drop_last(), existing);
        if let Ok(rule) = user_rule(raws.last(), existing, ids_of(before)) {
            assert forall|i: int| 0 <= i < before.len() implies (#[trigger] before[i]).id
                != rule.id by {
                assert(ids_of(before)[i] == before[i].id);
                assert(!ids_of(before).contains(rule.id));
            }
        }
    }
}

/// A rule file never lowers the safety of a built-in rule, never gives or takes
/// administrator rights, and never moves a rule to another place: each rule
/// that is not the user's own is a built-in rule with its safety kept or raised
/// and its age threshold kept or set within the range.
pub proof fn overrides_never_lower_safety(config: Config, file: Option<RuleFile>, k: int)
    requires
        0 <= k < resolved_rules(config, file).len(),
        !resolved_rules(config, file)[k].is_user_defined,
    ensures
        exists|i: int|
            0 <= i < builtin(config).len() && is_tightened(
                #[trigger] builtin(config)[i],
                resolved_rules(config, file)[k],
            ),
{
    match file {
        None => {
            assert(is_tightened(builtin(config)[k], resolved_rules(config, file)[k]));
        },
        Some(f) => {
            let base = rules_after(builtin(config), f.overrides@);
            if k < base.len() {
                let i = rule_after_is_tightened(builtin(config), f.overrides@, k);
                assert(is_tightened(builtin(config)[i], base[k]));
            } else {
                added_rule_is_confined(considered(f.rules@), ids_of(base), k - base.len());
            }
        },
    }
}

/// Each rule that a user added is confined.
pub proof fn user_rules_are_confined(config: Config, file: Option<RuleFile>, k: int)
    requires
        0 <= k < resolved_rules(config, file).len(),
        resolved_rules(config, file)[k].is_user_defined,
    ensures
        is_confined(resolved_rules(config, file)[k]),
{
    match file {
        None => {},
        Some(f) => {
            let base = rules_after(builtin(config), f.overrides@);
            if k < base.len() {
                let i = rule_after_is_tightened(builtin(config), f.overrides@, k);
                assert(!builtin(config)[i].is_user_defined);
            } else {
                added_rule_is_confined(considered(f.rules@), ids_of(base), k - base.len());
            }
        },
    }
}

/// There is never more than one rule with an id.
pub proof fn resolved_ids_are_unique(config: Config, file: Option<RuleFile>)
    ensures
        have_distinct_ids(resolved_rules(config, file)),
{
    assert forall|i: int, j: int| 0 <= i < j < builtin(config).len() implies (
    #[trigger] builtin(config)[i]).id != (#[trigger] builtin(config)[j]).id by {
        builtin_ids_are_unique(config, i, j);
    }
    match file {
        None => {},
        Some(f) => {
            changes_keep_distinct(builtin(config), f.overrides@);
            let base = rules_after(builtin(config), f.overrides@);
            let raws = considered(f.rules@);
            let added = added_rules(raws, ids_of(base));
            added_ids_are_distinct(raws, ids_of(base));
            let all = base + added;
            assert forall|i: int, j: int| 0 <= i < j < all.len() implies (#[trigger] all[i]).id != (
            #[trigger] all[j]).id by {
                if i < base.len() && j >= base.len() {
                    added_rule_is_confined(raws, ids_of(base), j - base.len());
                    assert(ids_of(base)[i] == base[i].id);
                    assert(all[j] == added[j - base.len()]);
                } else if i >= base.len() {
                    assert(all[i] == added[i - base.len()]);
                    assert(all[j] == added[j - base.len()]);
                }
            }
        },
    }
}

/// A user adds no more rules than the limit.
pub proof fn user_rules_are_few(config: Config, file: Option<RuleFile>)
    ensures
        resolved_rules(config, file).filter(is_own()).len() <= MAX_USER_RULES,
{
    let all = resolved_rules(config, file);
    let (base, added) = match file {
        None => (builtin(config), Seq::<RuleView>::empty()),
        Some(f) => {
            let base = rules_after(builtin(config), f.overrides@);
            (base, added_rules(considered(f.rules@), ids_of(base)))
        },
    };
    assert(all =~= base + added);
    assert forall|k: int| 0 <= k < base.len() implies !is_own()(#[trigger] base[k]) by {
        if let Some(f) = file {
            let i = rule_after_is_tightened(builtin(config), f.overrides@, k);
            assert(!builtin(config)[i].is_user_defined);
        }
    }
    base.lemma_all_neg_filter_empty(is_own());
    Seq::filter_distributes_over_add(base, added, is_own());
    added.lemma_filter_len(is_own());
    if let Some(f) = file {
        added_rules_are_few(considered(f.rules@), ids_of(base));
    }
}

proof fn bad_rule_adds_nothing(raws: Seq<RawUserRule>, existing: Seq<Seq<char>>, k: int)
    requires
        0 <= k < raws.len(),
        user_rule(raws[k], existing, ids_of(added_rules(raws.take(k), existing))) is Err,
    ensures
        added_rules(raws.remove(k), existing) == added_rules(raws, existing),
        added_issues(raws.remove(k), existing).len() + 1 == added_issues(raws, existing).len(),
    decreases raws.len(),
{
    if k == raws.len() - 1 {
        assert(raws.remove(k) =~= raws.drop_last());
        assert(raws.take(k) =~= raws.drop_last());
    } else {
        let front = raws.drop_last();
        let rest = raws.remove(k);
        assert(front.take(k) =~= raws.take(k));
        assert(rest.drop_last() =~= front.remove(k));
        assert(rest.last() == raws.last());
        bad_rule_adds_nothing(front, existing, k);
    }
}

/// A rule that is wrong is left out alone: the file without it comes to the same
/// rules, with one thing less to report. Beyond the limit it still takes up a
/// place, so this is said of files within the limit.
pub proof fn bad_rules_are_left_out_alone(config: Config, f: RuleFile, without: RuleFile, k: int)
    requires
        f.rules@.len() <= MAX_USER_RULES,
        0 <= k < f.rules@.len(),
        ({
            let existing = ids_of(rules_after(builtin(config), f.overrides@));
            let seen = ids_of(added_rules(f.rules@.take(k), existing));
            user_rule(f.rules@[k], existing, seen) is Err
        }),
        without.overrides@ == f.overrides@,
        without.rules@ == f.rules@.remove(k),
    ensures
        resolved_rules(config, Some(without)) == resolved_rules(config, Some(f)),
        resolved_issues(config, Some(without)).len() + 1 == resolved_issues(config, Some(f)).len(),
{
    bad_rule_adds_nothing(f.rules@, ids_of(rules_after(builtin(config), f.overrides@)), k);
}

proof fn unknown_override_changes_nothing(
    rules: Seq<RuleView>,
    overrides: Seq<(String, RuleOverride)>,
    k: int,
)
    requires
        0 <= k < overrides.len(),
        place_of(rules_after(rules, overrides.take(k)), overrides[k].0@) == rules_after(
            rules,
            overrides.take(k),
        ).len(),
    ensures
        rules_after(rules, overrides.remove(k)) == rules_after(rules, overrides),
    decreases overrides.len(),
{
    if k == overrides.len() - 1 {
        assert(overrides.remove(k) =~= overrides.drop_last());
        assert(overrides.take(k) =~= overrides.drop_last());
    } else {
        let front = overrides.drop_last();
        let rest = overrides.remove(k);
        assert(front.take(k) =~= overrides.take(k));
        assert(rest.drop_last() =~= front.remove(k));
        assert(rest.last() == overrides.last());
        unknown_override_changes_nothing(rules, front, k);
    }
}

/// A change to a rule that is not there is left out alone: the file without it
/// comes to the same rules.
pub proof fn unknown_overrides_are_left_out_alone(
    config: Config,
    f: RuleFile,
    without: RuleFile,
    k: int,
)
    requires
        0 <= k < f.overrides@.len(),
        ({
            let rules = rules_after(builtin(config), f.overrides@.take(k));
            !ids_of(rules).contains(f.overrides@[k].0@)
        }),
        without.overrides@ == f.overrides@.remove(k),
        without.rules@ == f.rules@,
    ensures
        resolved_rules(config, Some(without)) == resolved_rules(config, Some(f)),
{
    let rules = rules_after(builtin(config), f.overrides@.take(k));
    let id = f.overrides@[k].0@;
    place_is_there(rules, id);
    let p = place_of(rules, id);
    if p < rules.len() {
        assert(ids_of(rules)[p] == id);
    }
    unknown_override_changes_nothing(builtin(config), f.overrides@, k);
}

/// Where there is no rule file, or users' rules are switched off, the rules are
/// the built-in ones.
pub proof fn no_file_changes_nothing(config: Config, source: RuleSource)
    requires
        source is Missing || !config.user_rules_enabled,
    ensures
        loaded(config, source) == (RuleSetView { rules: builtin(config), issues: Seq::empty() }),
{
}

/// A rule file that cannot be used leaves the built-in rules as they are, and
/// says so once.
pub proof fn unusable_files_are_reported(config: Config, source: RuleSource)
    requires
        config.user_rules_enabled,
        source is Unreadable || source is Corrupt || (source matches RuleSource::Parsed(f)
            && f.schema_version > CURRENT_SCHEMA_VERSION),
    ensures
        loaded(config, source).rules == builtin(config),
        loaded(config, source).issues.len() == 1,
        loaded(config, source).issues[0].rule_id is None,
{
}

// ---- What the rule file does ----

/// `after` is the safety `before` where the name `asked` was asked for: it can
/// be raised to a careful one and never lowered.
pub open spec fn is_raised(asked: Option<Seq<char>>, before: Safety, after: Safety) -> bool {
    &&& asked == Some("Review"@) ==> after == Safety::Review
    &&& asked == Some("Caution"@) ==> after == (if before == Safety::Review {
        Safety::Review
    } else {
        Safety::Caution
    })
    &&& asked != Some("Review"@) && asked != Some("Caution"@) ==> after == before
}

proof fn safety_names_differ()
    ensures
        "Safe"@ != "Caution"@,
        "Safe"@ != "Review"@,
        "Caution"@ != "Review"@,
{
    reveal_strlit("Safe");
    reveal_strlit("Caution");
    reveal_strlit("Review");
    assert("Safe"@.len() == 4);
    assert("Caution"@.len() == 7);
    assert("Review"@.len() == 6);
}

proof fn changes_add_up(
    rules: Seq<RuleView>,
    a: Seq<(String, RuleOverride)>,
    b: Seq<(String, RuleOverride)>,
)
    ensures
        rules_after(rules, a + b) == rules_after(rules_after(rules, a), b),
    decreases b.len(),
{
    if b.len() == 0 {
        assert(a + b =~= a);
    } else {
        assert((a + b).drop_last() =~= a + b.drop_last());
        assert((a + b).last() == b.last());
        changes_add_up(rules, a, b.drop_last());
    }
}

/// A rule that no change speaks of stays as it is.
proof fn other_rules_stay(
    rules: Seq<RuleView>,
    overrides: Seq<(String, RuleOverride)>,
    i: int,
) -> (p: int)
    requires
        0 <= i < rules.len(),
        forall|k: int| 0 <= k < overrides.len() ==> (#[trigger] overrides[k]).0@ != rules[i].id,
    ensures
        0 <= p < rules_after(rules, overrides).len(),
        rules_after(rules, overrides)[p] == rules[i],
    decreases overrides.len(),
{
    if overrides.len() == 0 {
        i
    } else {
        let front = overrides.drop_last();
        assert forall|k: int| 0 <= k < front.len() implies (#[trigger] front[k]).0@
            != rules[i].id by {
            assert(front[k] == overrides[k]);
        }
        let m = other_rules_stay(rules, front, i);
        let before = rules_after(rules, front);
        let id = overrides.last().0@;
        let over = overrides.last().1;
        assert(overrides.last() == overrides[overrides.len() - 1]);
        assert(id != before[m].id);
        place_is_there(before, id);
        let place = place_of(before, id);
        if place == before.len() {
            m
        } else {
            let changed = before.update(place, changed_rule(before[place], over));
            assert(changed[m] == before[m]);
            if over.enabled == Some(false) {
                assert(changed.contains(changed[m]));
                changed.lemma_filter_contains(other_than(id), m);
                let kept = changed.filter(other_than(id));
                assert(kept.contains(before[m]));
                choose|p: int| 0 <= p < kept.len() && kept[p] == before[m]
            } else {
                m
            }
        }
    }
}

/// A rule that is not there does not come back.
proof fn missing_rules_stay_away(
    rules: Seq<RuleView>,
    overrides: Seq<(String, RuleOverride)>,
    id: Seq<char>,
)
    requires
        forall|i: int| 0 <= i < rules.len() ==> (#[trigger] rules[i]).id != id,
    ensures
        forall|p: int|
            0 <= p < rules_after(rules, overrides).len() ==> (#[trigger] rules_after(
                rules,
                overrides,
            )[p]).id != id,
{
    assert forall|p: int| 0 <= p < rules_after(rules, overrides).len() implies (
    #[trigger] rules_after(rules, overrides)[p]).id != id by {
        let i = rule_after_is_tightened(rules, overrides, p);
        assert(rules[i].id != id);
    }
}

/// The file changes the rule at `i` by its change `k` and by no other.
pub open spec fn changes_once(
    config: Config,
    f: RuleFile,
    k: int,
    i: int,
) -> bool {
    &&& 0 <= k < f.overrides@.len()
    &&& 0 <= i < builtin(config).len()
    &&& f.overrides@[k].0@ == builtin(config)[i].id
    &&& forall|m: int|
        0 <= m < f.overrides@.len() && m != k ==> (#[trigger] f.overrides@[m]).0@ != builtin(
            config,
        )[i].id
}

/// `after` is the rule `before` with the change `over`: a threshold that is
/// asked for holds, within its range; a safety that is asked for holds where it
/// is no less careful; all else is as it was.
pub open spec fn is_overridden(before: RuleView, over: RuleOverride, after: RuleView) -> bool {
    &&& match over.age_threshold_days {
        Some(asked) => after.age_threshold_days is Some && is_kept_in_range(
            asked,
            after.age_threshold_days->0,
        ),
        None => after.age_threshold_days == before.age_threshold_days,
    }
    &&& is_raised(maybe_text(over.safety), before.safety, after.safety)
    &&& after.id == before.id
    &&& after.label == before.label
    &&& after.description == before.description
    &&& after.base == before.base
    &&& after.match_kind == before.match_kind
    &&& after.needs_admin == before.needs_admin
    &&& after.large_file_threshold_bytes == before.large_file_threshold_bytes
    &&& after.is_user_defined == before.is_user_defined
}

/// A built-in rule that the file changes, and does not switch off, is used with
/// that change: with the threshold that the change asks for, or the nearest that
/// thresholds can have, with the safety that it asks for where that is no less
/// careful, and otherwise as it was.
pub proof fn an_override_changes_its_rule(config: Config, f: RuleFile, k: int, i: int) -> (p: int)
    requires
        changes_once(config, f, k, i),
        f.overrides@[k].1.enabled != Some(false),
    ensures
        0 <= p < resolved_rules(config, Some(f)).len(),
        is_overridden(
            builtin(config)[i],
            f.overrides@[k].1,
            resolved_rules(config, Some(f))[p],
        ),
{
    safety_names_differ();
    let rules = builtin(config);
    let all = f.overrides@;
    let first = all.take(k);
    let rest = all.skip(k + 1);
    let id = all[k].0@;
    let over = all[k].1;
    assert forall|m: int| 0 <= m < first.len() implies (#[trigger] first[m]).0@ != rules[i].id by {
        assert(first[m] == all[m]);
    }
    let m = other_rules_stay(rules, first, i);
    let before = rules_after(rules, first);
    assert forall|a: int, b: int| 0 <= a < b < rules.len() implies (#[trigger] rules[a]).id != (
    #[trigger] rules[b]).id by {
        builtin_ids_are_unique(config, a, b);
    }
    changes_keep_distinct(rules, first);
    place_is_there(before, id);
    let place = place_of(before, id);
    assert(place == m) by {
        if place < m {
            assert(before[place].id != before[m].id);
        }
    }
    let middle = changed_rules(before, id, over);
    assert(middle == before.update(m, changed_rule(before[m], over)));
    assert(all.take(k + 1).drop_last() =~= first);
    assert(all.take(k + 1).last() == all[k]);
    assert(rules_after(rules, all.take(k + 1)) == middle);
    assert(all.take(k + 1) + rest =~= all);
    changes_add_up(rules, all.take(k + 1), rest);
    assert forall|n: int| 0 <= n < rest.len() implies (#[trigger] rest[n]).0@ != middle[m].id by {
        assert(rest[n] == all[n + k + 1]);
    }
    other_rules_stay(middle, rest, m)
}

/// A built-in rule that the file switches off is gone. Only a rule of the user's
/// own can have its id.
pub proof fn an_override_can_switch_its_rule_off(
    config: Config,
    f: RuleFile,
    k: int,
    i: int,
    p: int,
)
    requires
        changes_once(config, f, k, i),
        f.overrides@[k].1.enabled == Some(false),
        0 <= p < resolved_rules(config, Some(f)).len(),
        resolved_rules(config, Some(f))[p].id == builtin(config)[i].id,
    ensures
        resolved_rules(config, Some(f))[p].is_user_defined,
{
    let rules = builtin(config);
    let all = f.overrides@;
    let first = all.take(k);
    let rest = all.skip(k + 1);
    let id = all[k].0@;
    let before = rules_after(rules, first);
    let middle = changed_rules(before, id, all[k].1);
    place_is_there(before, id);
    assert forall|n: int| 0 <= n < middle.len() implies (#[trigger] middle[n]).id != id by {
        let place = place_of(before, id);
        if place < before.len() {
            let changed = before.update(place, changed_rule(before[place], all[k].1));
            assert(middle.contains(middle[n]));
            changed.lemma_filter_contains_rev(other_than(id), middle[n]);
            changed.lemma_filter_pred(other_than(id), n);
        } else {
            assert(before[n].id != id);
        }
    }
    assert(all.take(k + 1).drop_last() =~= first);
    assert(all.take(k + 1).last() == all[k]);
    assert(all.take(k + 1) + rest =~= all);
    changes_add_up(rules, all.take(k + 1), rest);
    missing_rules_stay_away(middle, rest, id);
    let base = rules_after(rules, all);
    if p < base.len() {
        assert(base[p].id != id);
    } else {
        added_rule_is_confined(considered(f.rules@), ids_of(base), p - base.len());
    }
}

/// A built-in rule that the file does not speak of is used as it is.
pub proof fn rules_without_an_override_stay(config: Config, f: RuleFile, i: int) -> (p: int)
    requires
        0 <= i < builtin(config).len(),
        forall|k: int|
            0 <= k < f.overrides@.len() ==> (#[trigger] f.overrides@[k]).0@ != builtin(config)[i].id,
    ensures
        0 <= p < resolved_rules(config, Some(f)).len(),
        resolved_rules(config, Some(f))[p] == builtin(config)[i],
{
    other_rules_stay(builtin(config), f.overrides@, i)
}

/// One for what holds.
pub open spec fn one_if(b: bool) -> nat {
    if b {
        1
    } else {
        0
    }
}

/// A change is reported once for speaking of administrator rights, and once for
/// the rule not being there or else for a safety that is unknown or less
/// careful. Each report names the rule.
pub proof fn what_is_reported_of_an_override(config: Config, f: RuleFile)
    requires
        f.overrides@.len() == 1,
        f.rules@.len() == 0,
    ensures
        ({
            let id = f.overrides@[0].0@;
            let over = f.overrides@[0].1;
            let issues = resolved_issues(config, Some(f));
            &&& forall|n: int|
                0 <= n < issues.len() ==> (#[trigger] issues[n]).rule_id == Some(id)
            &&& (forall|i: int| 0 <= i < builtin(config).len() ==> (#[trigger] builtin(config)[i]).id
                != id) ==> issues.len() == 1 + one_if(over.has_needs_admin)
            &&& forall|i: int|
                0 <= i < builtin(config).len() && (#[trigger] builtin(config)[i]).id == id
                    ==> issues.len() == one_if(over.has_needs_admin) + one_if(
                    match maybe_text(over.safety) {
                        None => false,
                        Some(name) => (name != "Safe"@ && name != "Caution"@ && name != "Review"@)
                            || (name == "Safe"@ && builtin(config)[i].safety != Safety::Safe) || (
                        name == "Caution"@ && builtin(config)[i].safety == Safety::Review),
                    },
                )
        }),
{
    safety_names_differ();
    let rules = builtin(config);
    let all = f.overrides@;
    let id = all[0].0@;
    let over = all[0].1;
    assert(all.drop_last() =~= Seq::empty());
    assert(rules_after(rules, all.drop_last()) == rules);
    assert(issues_after(rules, all.drop_last()) == Seq::<IssueView>::empty());
    assert(issues_after(rules, all) =~= change_issues(rules, id, over));
    assert(considered(f.rules@) =~= Seq::empty());
    let base = rules_after(rules, all);
    assert(added_issues(considered(f.rules@), ids_of(base)) =~= Seq::empty());
    let issues = resolved_issues(config, Some(f));
    assert(issues =~= change_issues(rules, id, over));
    place_is_there(rules, id);
    let place = place_of(rules, id);
    assert forall|i: int| 0 <= i < rules.len() && (#[trigger] rules[i]).id == id implies i
        == place by {
        if place < i {
            builtin_ids_are_unique(config, place, i);
        }
    }
    if place < rules.len() {
        assert(rules[place].id == id);
    }
    assert(issues.len() == admin_issues(id, over).len() + if place == rules.len() {
        1
    } else {
        safety_issues(id, over, rules[place].safety).len()
    });
}

proof fn extensions_are_normalized(exts: Seq<Seq<char>>)
    ensures
        normalized_extensions(exts) is Ok == forall|i: int|
            0 <= i < exts.len() ==> normalized_extension(#[trigger] exts[i]) is Ok,
        normalized_extensions(exts) is Ok ==> normalized_extensions(exts)->Ok_0.len() == exts.len()
            && forall|i: int|
            0 <= i < exts.len() ==> #[trigger] normalized_extensions(exts)->Ok_0[i]
                == normalized_extension(exts[i])->Ok_0,
    decreases exts.len(),
{
    if exts.len() > 0 {
        let front = exts.drop_last();
        let last = exts.len() - 1;
        extensions_are_normalized(front);
        assert(exts.last() == exts[last]);
        if normalized_extensions(exts) is Ok {
            assert forall|i: int| 0 <= i < exts.len() implies normalized_extension(
                #[trigger] exts[i],
            ) is Ok by {
                if i < last {
                    assert(front[i] == exts[i]);
                }
            }
            assert forall|i: int| 0 <= i < exts.len() implies #[trigger] normalized_extensions(
                exts,
            )->Ok_0[i] == normalized_extension(exts[i])->Ok_0 by {
                if i < last {
                    assert(front[i] == exts[i]);
                    assert(normalized_extensions(front)->Ok_0[i] == normalized_extension(
                        front[i],
                    )->Ok_0);
                }
            }
        } else {
            if normalized_extensions(front) is Err {
                let i = choose|i: int|
                    0 <= i < front.len() && !(normalized_extension(#[trigger] front[i]) is Ok);
                assert(front[i] == exts[i]);
                assert(!(normalized_extension(exts[i]) is Ok));
            } else {
                assert(!(normalized_extension(exts[last]) is Ok));
            }
        }
    }
}

/// A text of one character to `limit` characters without a colon, a backslash or
/// a control character.
pub open spec fn is_plain_text(text: Option<Seq<char>>, limit: nat) -> bool {
    match text {
        Some(t) => 1 <= t.len() <= limit && forall|i: int|
            0 <= i < t.len() ==> #[trigger] t[i] != ':' && t[i] != '\\' && !(t[i] <= '\u{1f}')
                && !('\u{7f}' <= t[i] <= '\u{9f}'),
        None => false,
    }
}

/// An extension, written with or without dots before it, that holds at least one
/// character after them and neither a separator, a colon, an asterisk nor white
/// space.
pub open spec fn is_usable_extension(ext: Seq<char>) -> bool {
    exists|n: int| #[trigger] is_usable_after(ext, n)
}

/// The extension is usable and starts after `n` dots.
pub open spec fn is_usable_after(ext: Seq<char>, n: int) -> bool {
    &&& 0 <= n < ext.len()
    &&& forall|i: int| 0 <= i < n ==> #[trigger] ext[i] == '.'
    &&& ext[n] != '.'
    &&& forall|i: int|
        n <= i < ext.len() ==> #[trigger] ext[i] != '/' && ext[i] != '\\' && ext[i] != ':' && ext[i]
            != '*' && !is_space(ext[i])
}

/// What a user's rule needs for the ids in use `existing` and those added before
/// `seen`: an id of its own of up to 64 lower-case letters, digits and
/// underscores, a label, a description, one of five places to look, a kind of
/// match that can be used, and a safety other than safe. It must not speak of
/// administrator rights.
pub open spec fn is_acceptable(
    raw: RawUserRule,
    existing: Seq<Seq<char>>,
    seen: Seq<Seq<char>>,
) -> bool {
    &&& !raw.has_needs_admin
    &&& raw.id is Some
    &&& 1 <= raw.id->0@.len() <= 64
    &&& forall|i: int|
        0 <= i < raw.id->0@.len() ==> ('a' <= #[trigger] raw.id->0@[i] <= 'z' || '0'
            <= raw.id->0@[i] <= '9' || raw.id->0@[i] == '_')
    &&& !existing.contains(raw.id->0@)
    &&& !seen.contains(raw.id->0@)
    &&& is_plain_text(maybe_text(raw.label), 200)
    &&& is_plain_text(maybe_text(raw.description), 2000)
    &&& raw.base is Some
    &&& (raw.base->0@ == "UserTemp"@ || raw.base->0@ == "LocalAppData"@ || raw.base->0@
        == "Cache"@ || raw.base->0@ == "Downloads"@ || raw.base->0@ == "ThumbnailCache"@)
    &&& (raw.safety is None || raw.safety->0@ == "Caution"@ || raw.safety->0@ == "Review"@)
    &&& match raw.match_kind {
        None => false,
        Some(RawMatchKind::All) => true,
        Some(RawMatchKind::OlderThan) => raw.age_threshold_days is Some,
        Some(RawMatchKind::Extension { extensions }) => extensions@.len() > 0 && forall|i: int|
            0 <= i < extensions@.len() ==> is_usable_extension((#[trigger] extensions@[i])@),
    }
}

/// `rule` is what the user wrote: its id, label and description, the place it
/// names, what it takes, with extensions in lower case and without the dots
/// before them, the safety it asks for or else a look at each entry, and its
/// threshold within the range. It touches no administrator area.
pub open spec fn is_as_written(raw: RawUserRule, rule: RuleView) -> bool {
    &&& maybe_text(raw.id) == Some(rule.id)
    &&& maybe_text(raw.label) == Some(rule.label)
    &&& maybe_text(raw.description) == Some(rule.description)
    &&& raw.base is Some
    &&& raw.base->0@ == "UserTemp"@ ==> rule.base == KnownDir::UserTemp
    &&& raw.base->0@ == "LocalAppData"@ ==> rule.base == KnownDir::LocalAppData
    &&& raw.base->0@ == "Cache"@ ==> rule.base == KnownDir::Cache
    &&& raw.base->0@ == "Downloads"@ ==> rule.base == KnownDir::Downloads
    &&& raw.base->0@ == "ThumbnailCache"@ ==> rule.base == KnownDir::ThumbnailCache
    &&& rule.safety == (if maybe_text(raw.safety) == Some("Caution"@) {
        Safety::Caution
    } else {
        Safety::Review
    })
    &&& match raw.age_threshold_days {
        Some(asked) => rule.age_threshold_days is Some && is_kept_in_range(
            asked,
            rule.age_threshold_days->0,
        ),
        None => rule.age_threshold_days is None,
    }
    &&& match raw.match_kind {
        None => false,
        Some(RawMatchKind::All) => rule.match_kind is All,
        Some(RawMatchKind::OlderThan) => rule.match_kind is OlderThan,
        Some(RawMatchKind::Extension { extensions }) => match rule.match_kind {
            MatchKindView::Extension(kept) => kept.len() == extensions@.len() && forall|i: int,
                n: int|
                0 <= i < kept.len() && #[trigger] is_usable_after(extensions@[i]@, n)
                    ==> #[trigger] kept[i] == lowercase(extensions@[i]@.skip(n)),
            _ => false,
        },
    }
    &&& !rule.needs_admin
    &&& rule.large_file_threshold_bytes is None
    &&& rule.is_user_defined
}

proof fn base_names_differ()
    ensures
        "UserTemp"@ != "LocalAppData"@,
        "UserTemp"@ != "Cache"@,
        "UserTemp"@ != "Downloads"@,
        "UserTemp"@ != "ThumbnailCache"@,
        "LocalAppData"@ != "Cache"@,
        "LocalAppData"@ != "Downloads"@,
        "LocalAppData"@ != "ThumbnailCache"@,
        "Cache"@ != "Downloads"@,
        "Cache"@ != "ThumbnailCache"@,
        "Downloads"@ != "ThumbnailCache"@,
{
    reveal_strlit("UserTemp");
    reveal_strlit("LocalAppData");
    reveal_strlit("Cache");
    reveal_strlit("Downloads");
    reveal_strlit("ThumbnailCache");
    assert("UserTemp"@.len() == 8);
    assert("LocalAppData"@.len() == 12);
    assert("Cache"@.len() == 5);
    assert("Downloads"@.len() == 9);
    assert("ThumbnailCache"@.len() == 14);
}

proof fn trimming_leaves_a_rest(s: Seq<char>, n: int)
    requires
        0 <= n <= s.len(),
        forall|i: int| 0 <= i < n ==> #[trigger] s[i] == '.',
        n < s.len() ==> s[n] != '.',
    ensures
        trim_start_of(s, '.') == s.skip(n),
    decreases n,
{
    if n > 0 {
        assert(s[0] == '.');
        let rest = s.drop_first();
        assert forall|i: int| 0 <= i < n - 1 implies #[trigger] rest[i] == '.' by {
            assert(rest[i] == s[i + 1]);
        }
        if n < s.len() {
            assert(rest[n - 1] == s[n]);
        }
        trimming_leaves_a_rest(rest, n - 1);
        assert(rest.skip(n - 1) =~= s.skip(n));
    } else {
        assert(s.skip(0) =~= s);
    }
}

proof fn dots_come_to_an_end(s: Seq<char>) -> (n: int)
    ensures
        0 <= n <= s.len(),
        forall|i: int| 0 <= i < n ==> #[trigger] s[i] == '.',
        n < s.len() ==> s[n] != '.',
    decreases s.len(),
{
    if s.len() == 0 || s[0] != '.' {
        0
    } else {
        let rest = s.drop_first();
        let n = dots_come_to_an_end(rest);
        assert forall|i: int| 0 <= i < n + 1 implies #[trigger] s[i] == '.' by {
            if i > 0 {
                assert(rest[i - 1] == s[i]);
            }
        }
        if n < rest.len() {
            assert(rest[n] == s[n + 1]);
        }
        n + 1
    }
}

proof fn which_extensions_are_usable(ext: Seq<char>)
    ensures
        normalized_extension(ext) is Ok == is_usable_extension(ext),
        forall|n: int| #[trigger]
            is_usable_after(ext, n) ==> normalized_extension(ext)->Ok_0 == lowercase(ext.skip(n)),
{
    let n = dots_come_to_an_end(ext);
    trimming_leaves_a_rest(ext, n);
    let bare = ext.skip(n);
    if normalized_extension(ext) is Ok {
        assert forall|i: int| n <= i < ext.len() implies #[trigger] ext[i] != '/' && ext[i] != '\\'
            && ext[i] != ':' && ext[i] != '*' && !is_space(ext[i]) by {
            assert(bare[i - n] == ext[i]);
        }
        assert(is_usable_after(ext, n));
    }
    assert forall|m: int| #[trigger] is_usable_after(ext, m) implies normalized_extension(ext)
        == Ok::<Seq<char>, Seq<char>>(lowercase(ext.skip(m))) by {
        if m < n {
            assert(ext[m] == '.');
        }
        if n < m {
            assert(ext[n] == '.');
        }
        assert forall|i: int| 0 <= i < bare.len() implies #[trigger] bare[i] != '/' && bare[i]
            != '\\' && bare[i] != ':' && bare[i] != '*' && !is_space(bare[i]) by {
            assert(bare[i] == ext[i + n]);
        }
    }
}

proof fn which_texts_are_plain(value: Seq<char>, field: Seq<char>, limit: nat)
    ensures
        text_error(value, field, limit) is None == is_plain_text(Some(value), limit),
{
    if text_error(value, field, limit) is None {
        assert forall|i: int| 0 <= i < value.len() implies #[trigger] value[i] != ':' && value[i]
            != '\\' && !(value[i] <= '\u{1f}') && !('\u{7f}' <= value[i] <= '\u{9f}') by {
            assert(!is_control_char(value[i]));
            assert(value.contains(value[i]));
        }
    } else {
        if has_control(value) {
            let i = choose|i: int| 0 <= i < value.len() && is_control_char(#[trigger] value[i]);
            assert(value[i] <= '\u{1f}' || '\u{7f}' <= value[i] <= '\u{9f}');
        }
    }
}

/// A user's rule is taken if and only if it has all that it needs, and then it is
/// what the user wrote.
pub proof fn which_user_rules_are_taken(
    raw: RawUserRule,
    existing: Seq<Seq<char>>,
    seen: Seq<Seq<char>>,
)
    ensures
        user_rule(raw, existing, seen) is Ok == is_acceptable(raw, existing, seen),
        user_rule(raw, existing, seen) is Ok ==> is_as_written(
            raw,
            user_rule(raw, existing, seen)->Ok_0,
        ),
{
    safety_names_differ();
    base_names_differ();
    if let Some(text) = raw.label {
        which_texts_are_plain(text@, "label"@, 200);
    }
    if let Some(text) = raw.description {
        which_texts_are_plain(text@, "description"@, 2000);
    }
    if let Some(RawMatchKind::Extension { extensions }) = raw.match_kind {
        let exts = texts_of(extensions@);
        extensions_are_normalized(exts);
        assert forall|i: int| 0 <= i < exts.len() implies normalized_extension(
            #[trigger] exts[i],
        ) is Ok == is_usable_extension(extensions@[i]@) && forall|n: int| #[trigger]
            is_usable_after(extensions@[i]@, n) ==> normalized_extension(exts[i])->Ok_0 == lowercase(
            extensions@[i]@.skip(n),
        ) by {
            which_extensions_are_usable(exts[i]);
        }
        if normalized_extensions(exts) is Ok {
            assert forall|i: int| 0 <= i < extensions@.len() implies is_usable_extension(
                (#[trigger] extensions@[i])@,
            ) by {
                assert(normalized_extension(exts[i]) is Ok);
            }
        } else {
            let i = choose|i: int|
                0 <= i < exts.len() && !(normalized_extension(#[trigger] exts[i]) is Ok);
            assert(!is_usable_extension(extensions@[i]@));
        }
    }
}

/// No more than the first thirty-two rules of a file are looked at, and all of
/// these are.
pub proof fn how_many_user_rules_are_looked_at(raws: Seq<RawUserRule>)
    ensures
        raws.len() <= 32 ==> considered(raws) == raws,
        raws.len() > 32 ==> considered(raws) == raws.subrange(0, 32),
        excess_issues(raws.len()).len() == one_if(raws.len() > 32),
{
    assert(raws.take(32) =~= raws.subrange(0, 32));
}

/// Rules that are right one by one and have ids of their own are all added, in
/// their order, and nothing is reported of them.
pub proof fn good_user_rules_are_added(raws: Seq<RawUserRule>, existing: Seq<Seq<char>>)
    requires
        forall|i: int|
            0 <= i < raws.len() ==> is_acceptable(#[trigger] raws[i], existing, Seq::empty()),
        forall|i: int, j: int|
            0 <= i < j < raws.len() ==> maybe_text((#[trigger] raws[i]).id) != maybe_text(
                (#[trigger] raws[j]).id,
            ),
    ensures
        added_rules(raws, existing).len() == raws.len(),
        forall|i: int|
            0 <= i < raws.len() ==> is_as_written(
                raws[i],
                #[trigger] added_rules(raws, existing)[i],
            ),
        added_issues(raws, existing).len() == 0,
    decreases raws.len(),
{
    if raws.len() > 0 {
        let front = raws.drop_last();
        let last = raws.len() - 1;
        assert forall|i: int| 0 <= i < front.len() implies is_acceptable(
            #[trigger] front[i],
            existing,
            Seq::empty(),
        ) by {
            assert(front[i] == raws[i]);
        }
        assert forall|i: int, j: int| 0 <= i < j < front.len() implies maybe_text(
            (#[trigger] front[i]).id,
        ) != maybe_text((#[trigger] front[j]).id) by {
            assert(front[i] == raws[i] && front[j] == raws[j]);
        }
        good_user_rules_are_added(front, existing);
        let before = added_rules(front, existing);
        let seen = ids_of(before);
        let raw = raws[last];
        assert(raws.last() == raw);
        if seen.contains(raw.id->0@) {
            let i = choose|i: int| 0 <= i < seen.len() && seen[i] == raw.id->0@;
            assert(is_as_written(front[i], before[i]));
            assert(front[i] == raws[i]);
            assert(maybe_text(raws[i].id) != maybe_text(raws[last].id));
        }
        assert(is_acceptable(raw, existing, seen));
        which_user_rules_are_taken(raw, existing, seen);
        assert forall|i: int| 0 <= i < raws.len() implies is_as_written(
            raws[i],
            #[trigger] added_rules(raws, existing)[i],
        ) by {
            if i < last {
                assert(front[i] == raws[i]);
                assert(is_as_written(front[i], before[i]));
            }
        }
    }
}

/// Each rule that is added was written by the user in an acceptable way.
pub proof fn added_user_rules_were_written(
    raws: Seq<RawUserRule>,
    existing: Seq<Seq<char>>,
    k: int,
) -> (i: int)
    requires
        0 <= k < added_rules(raws, existing).len(),
    ensures
        0 <= i < raws.len(),
        is_acceptable(raws[i], existing, Seq::empty()),
        is_as_written(raws[i], added_rules(raws, existing)[k]),
    decreases raws.len(),
{
    let front = raws.drop_last();
    let before = added_rules(front, existing);
    if k < before.len() {
        let i = added_user_rules_were_written(front, existing, k);
        assert(front[i] == raws[i]);
        i
    } else {
        which_user_rules_are_taken(raws.last(), existing, ids_of(before));
        raws.len() - 1
    }
}

/// A rule that cannot be taken whatever came before it is reported, under the id
/// that it has.
pub proof fn bad_user_rules_are_reported(
    raws: Seq<RawUserRule>,
    existing: Seq<Seq<char>>,
    i: int,
) -> (k: int)
    requires
        0 <= i < raws.len(),
        !is_acceptable(raws[i], existing, Seq::empty()),
    ensures
        0 <= k < added_issues(raws, existing).len(),
        added_issues(raws, existing)[k].rule_id == maybe_text(raws[i].id),
    decreases raws.len(),
{
    let front = raws.drop_last();
    if i == raws.len() - 1 {
        which_user_rules_are_taken(
            raws.last(),
            existing,
            ids_of(added_rules(front, existing)),
        );
        added_issues(front, existing).len() as int
    } else {
        assert(front[i] == raws[i]);
        bad_user_rules_are_reported(front, existing, i)
    }
}

/// The rules of a user stand behind the built-in ones, as long as the file is of
/// the first version or older and users' rules are in use.
pub proof fn which_files_are_used(config: Config, f: RuleFile)
    ensures
        config.user_rules_enabled && f.schema_version <= 1 ==> loaded(
            config,
            RuleSource::Parsed(f),
        ).rules == resolved_rules(config, Some(f)) && loaded(config, RuleSource::Parsed(f)).issues
            == resolved_issues(config, Some(f)),
        !config.user_rules_enabled || f.schema_version > 1 ==> loaded(
            config,
            RuleSource::Parsed(f),
        ).rules == builtin(config),
        loaded(config, RuleSource::Parsed(f)).issues.len() >= one_if(
            config.user_rules_enabled && f.schema_version > 1,
        ),
        !config.user_rules_enabled ==> loaded(config, RuleSource::Parsed(f)).issues.len() == 0,
{
}

} // verus!
