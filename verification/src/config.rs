//! What the user has set.

use crate::i18n::Lang;
use crate::path::{file_in_dir, is_file_in, FilePath};
use crate::platform::Platform;
use crate::textmap::TextMap;
use vstd::prelude::*;

verus! {

/// What the user wants for the entries of one rule.
#[derive(Debug, Clone, Copy, PartialEq, Eq, Hash, Structural)]
pub enum RulePref {
    /// Select them always.
    AlwaysSelect,
    /// Never select them.
    Exclude,
    /// Follow the recommendation, the safest choice and the default.
    AskEachTime,
}

impl Default for RulePref {
    fn default() -> (r: RulePref)
        ensures
            r == RulePref::AskEachTime,
    {
        RulePref::AskEachTime
    }
}

/// What the user has set.
#[derive(Debug, PartialEq, Eq)]
pub struct Config {
    /// What the user wants, by rule id.
    pub rule_prefs: TextMap<RulePref>,
    /// Delete by way of the trash.
    pub use_trash: bool,
    /// Only preview, unless asked to delete.
    pub dry_run_default: bool,
    /// Age thresholds in days, by rule id, in place of the rules' own.
    pub age_thresholds: TextMap<u64>,
    /// The size in bytes from which an entry is called large.
    pub large_file_threshold_bytes: u64,
    /// Look for duplicate files while scanning.
    pub detect_duplicates: bool,
    /// Keep a log of what was deleted.
    pub audit_log_enabled: bool,
    /// Read the user's rule file.
    pub user_rules_enabled: bool,
    /// The language of the user interface.
    pub lang: Lang,
}

/// The size from which an entry is called large, unless set otherwise.
pub const DEFAULT_LARGE_FILE_THRESHOLD_BYTES: u64 = 1_073_741_824;

/// The fewest days an age threshold can have.
pub const AGE_THRESHOLD_MIN_DAYS: u64 = 1;

/// The most days an age threshold can have.
pub const AGE_THRESHOLD_MAX_DAYS: u64 = 3650;

/// The default settings are the cautious ones: nothing is deleted for good, and
/// nothing at all unless asked for.
pub open spec fn is_default_config(c: Config) -> bool {
    &&& c.rule_prefs.entries@.len() == 0
    &&& c.use_trash
    &&& c.dry_run_default
    &&& c.age_thresholds.entries@.len() == 0
    &&& c.large_file_threshold_bytes == DEFAULT_LARGE_FILE_THRESHOLD_BYTES
    &&& !c.detect_duplicates
    &&& c.audit_log_enabled
    &&& c.user_rules_enabled
    &&& c.lang == Lang::Ja
}

impl Default for Config {
    fn default() -> (r: Config)
        ensures
            is_default_config(r),
    {
        Config {
            rule_prefs: TextMap::new(),
            use_trash: true,
            dry_run_default: true,
            age_thresholds: TextMap::new(),
            large_file_threshold_bytes: DEFAULT_LARGE_FILE_THRESHOLD_BYTES,
            detect_duplicates: false,
            audit_log_enabled: true,
            user_rules_enabled: true,
            lang: Lang::Ja,
        }
    }
}

impl Clone for Config {
    fn clone(&self) -> (r: Config)
        ensures
            r.rule_prefs.entries@ == self.rule_prefs.entries@,
            r.age_thresholds.entries@ == self.age_thresholds.entries@,
            r == (Config {
                rule_prefs: r.rule_prefs,
                age_thresholds: r.age_thresholds,
                ..*self
            }),
    {
        Config {
            rule_prefs: self.rule_prefs.clone(),
            use_trash: self.use_trash,
            dry_run_default: self.dry_run_default,
            age_thresholds: self.age_thresholds.clone(),
            large_file_threshold_bytes: self.large_file_threshold_bytes,
            detect_duplicates: self.detect_duplicates,
            audit_log_enabled: self.audit_log_enabled,
            user_rules_enabled: self.user_rules_enabled,
            lang: self.lang,
        }
    }
}

/// `days` brought into the range that age thresholds can have.
pub open spec fn clamped_days(days: u64) -> u64 {
    if days < AGE_THRESHOLD_MIN_DAYS {
        AGE_THRESHOLD_MIN_DAYS
    } else if days > AGE_THRESHOLD_MAX_DAYS {
        AGE_THRESHOLD_MAX_DAYS
    } else {
        days
    }
}

/// `days` brought into the range that age thresholds can have.
pub fn clamp_days(days: u64) -> (r: u64)
    ensures
        r == clamped_days(days),
        AGE_THRESHOLD_MIN_DAYS <= r <= AGE_THRESHOLD_MAX_DAYS,
{
    if days < AGE_THRESHOLD_MIN_DAYS {
        AGE_THRESHOLD_MIN_DAYS
    } else if days > AGE_THRESHOLD_MAX_DAYS {
        AGE_THRESHOLD_MAX_DAYS
    } else {
        days
    }
}

impl Config {
    /// The age threshold of the rule `rule_id`, whose own threshold is
    /// `default_days`.
    pub open spec fn threshold(self, rule_id: Seq<char>, default_days: u64) -> u64 {
        clamped_days(
            match self.age_thresholds.value(rule_id) {
                Some(days) => days,
                None => default_days,
            },
        )
    }

    /// What the user wants for the rule `rule_id`.
    pub open spec fn pref(self, rule_id: Seq<char>) -> RulePref {
        match self.rule_prefs.value(rule_id) {
            Some(p) => p,
            None => RulePref::AskEachTime,
        }
    }

    /// The age threshold of the rule `rule_id`, whose own threshold is
    /// `default_days`. Whatever a settings file holds, the threshold stays in
    /// its range.
    pub fn age_threshold_days(&self, rule_id: &str, default_days: u64) -> (r: u64)
        ensures
            r == self.threshold(rule_id@, default_days),
            AGE_THRESHOLD_MIN_DAYS <= r <= AGE_THRESHOLD_MAX_DAYS,
    {
        let days: u64 = match self.age_thresholds.get(rule_id) {
            Some(d) => d,
            None => default_days,
        };
        clamp_days(days)
    }

    /// What the user wants for the rule `rule_id`.
    pub fn rule_pref(&self, rule_id: &str) -> (r: RulePref)
        ensures
            r == self.pref(rule_id@),
    {
        match self.rule_prefs.get(rule_id) {
            Some(p) => p,
            None => RulePref::AskEachTime,
        }
    }
}

/// Where the settings are kept: `config.json` in the platform's settings
/// directory, where there is one.
pub fn config_file_path<P: Platform + ?Sized>(platform: &P) -> (r: Option<FilePath>)
    ensures
        r is Some == platform.settings_dir() is Some,
        r is Some ==> is_file_in(r->0@, platform.settings_dir()->0, "config.json"@),
{
    file_in_dir(platform.config_dir(), "config.json")
}

// ---- What the settings come to ----

/// The number of days, kept between one day and ten years.
pub open spec fn is_kept_in_range(asked: u64, days: u64) -> bool {
    &&& 1 <= asked <= 3650 ==> days == asked
    &&& asked < 1 ==> days == 1
    &&& asked > 3650 ==> days == 3650
}

/// A threshold that is set for a rule holds for it, within the range; where a
/// rule is set more than once, the last one does.
pub proof fn a_threshold_that_is_set_holds(config: Config, id: Seq<char>, own: u64, i: int)
    requires
        0 <= i < config.age_thresholds.entries@.len(),
        config.age_thresholds.entries@[i].0@ == id,
        forall|j: int|
            i < j < config.age_thresholds.entries@.len() ==> (
            #[trigger] config.age_thresholds.entries@[j]).0@ != id,
    ensures
        is_kept_in_range(config.age_thresholds.entries@[i].1, config.threshold(id, own)),
{
    crate::textmap::the_last_entry_counts(config.age_thresholds.entries@, id, i);
}

/// A rule for which no threshold is set keeps its own, within the range.
pub proof fn rules_have_thresholds_of_their_own(config: Config, id: Seq<char>, own: u64)
    requires
        forall|j: int|
            0 <= j < config.age_thresholds.entries@.len() ==> (
            #[trigger] config.age_thresholds.entries@[j]).0@ != id,
    ensures
        is_kept_in_range(own, config.threshold(id, own)),
{
    crate::textmap::keys_without_an_entry_have_no_value(config.age_thresholds.entries@, id);
}

/// What the user wants for a rule is what was set last for it, and otherwise to
/// be asked each time.
pub proof fn wishes_are_those_that_were_set(config: Config, id: Seq<char>, i: int)
    requires
        -1 <= i < config.rule_prefs.entries@.len(),
        i >= 0 ==> config.rule_prefs.entries@[i].0@ == id,
        forall|j: int|
            i < j < config.rule_prefs.entries@.len() ==> (
            #[trigger] config.rule_prefs.entries@[j]).0@ != id,
    ensures
        i >= 0 ==> config.pref(id) == config.rule_prefs.entries@[i].1,
        i == -1 ==> config.pref(id) == RulePref::AskEachTime,
{
    if i >= 0 {
        crate::textmap::the_last_entry_counts(config.rule_prefs.entries@, id, i);
    } else {
        crate::textmap::keys_without_an_entry_have_no_value(config.rule_prefs.entries@, id);
    }
}

/// With the default settings nothing is deleted for good and nothing unless
/// asked for: previews are the rule, what is deleted goes to the trash and is
/// logged, and for every rule the user is asked and its own threshold holds.
pub proof fn defaults_are_cautious(c: Config, id: Seq<char>, own: u64)
    requires
        is_default_config(c),
    ensures
        c.use_trash,
        c.dry_run_default,
        c.audit_log_enabled,
        !c.detect_duplicates,
        c.user_rules_enabled,
        c.large_file_threshold_bytes == 1024 * 1024 * 1024,
        c.pref(id) == RulePref::AskEachTime,
        is_kept_in_range(own, c.threshold(id, own)),
{
    wishes_are_those_that_were_set(c, id, -1);
    rules_have_thresholds_of_their_own(c, id, own);
}

} // verus!
