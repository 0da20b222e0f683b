//! Rules: what may be cleaned, and how safe that is.
//!
//! Only what a rule names is ever offered for deletion.

use crate::config::Config;
use crate::i18n::{pick, picked, Lang};
use crate::platform::KnownDir;
use crate::text::{copy_texts, decimal, push_decimal, texts_of};
use vstd::prelude::*;

verus! {

/// How safe it is to delete what a rule finds, the safest first.
#[derive(Debug, Clone, Copy, PartialEq, Eq, Hash, PartialOrd, Ord, Structural)]
pub enum Safety {
    /// Made again when needed. Selected by default.
    Safe,
    /// It depends. Not selected by default.
    Caution,
    /// Has to be looked at. Not selected by default.
    Review,
}

impl Safety {
    /// The place in the order of risk.
    pub open spec fn risk(self) -> nat {
        match self {
            Safety::Safe => 0,
            Safety::Caution => 1,
            Safety::Review => 2,
        }
    }

    /// Whether `self` is safer than `other`.
    pub fn is_safer_than(self, other: Safety) -> (r: bool)
        ensures
            r == (self.risk() < other.risk()),
    {
        match (self, other) {
            (Safety::Safe, Safety::Caution) => true,
            (Safety::Safe, Safety::Review) => true,
            (Safety::Caution, Safety::Review) => true,
            _ => false,
        }
    }
}

/// Which files below its base a rule takes.
#[derive(Debug, PartialEq, Eq)]
pub enum MatchKind {
    /// All of them.
    All,
    /// Those with one of the extensions, kept in lower case without a dot.
    Extension(Vec<String>),
    /// Those older than the rule's age threshold.
    OlderThan,
}

/// The value of a [`MatchKind`].
#[verifier::ext_equal]
pub enum MatchKindView {
    All,
    Extension(Seq<Seq<char>>),
    OlderThan,
}

impl View for MatchKind {
    type V = MatchKindView;

    open spec fn view(&self) -> MatchKindView {
        match self {
            MatchKind::All => MatchKindView::All,
            MatchKind::Extension(exts) => MatchKindView::Extension(texts_of(exts@)),
            MatchKind::OlderThan => MatchKindView::OlderThan,
        }
    }
}

impl Clone for MatchKind {
    fn clone(&self) -> (r: MatchKind)
        ensures
            r@ == self@,
    {
        match self {
            MatchKind::All => MatchKind::All,
            MatchKind::Extension(exts) => {
                let copied = copy_texts(exts);
                MatchKind::Extension(copied)
            },
            MatchKind::OlderThan => MatchKind::OlderThan,
        }
    }
}

/// One rule: where to look, what to take, and what to tell the user.
#[derive(Debug, PartialEq, Eq)]
pub struct Rule {
    /// A stable name.
    pub id: String,
    /// The name that is shown.
    pub label: String,
    /// What the rule is about, and why.
    pub description: String,
    /// Where to look.
    pub base: KnownDir,
    /// What to take there.
    pub match_kind: MatchKind,
    /// Deleting takes administrator rights.
    pub needs_admin: bool,
    /// How safe deleting is.
    pub safety: Safety,
    /// The age threshold in days. With [`MatchKind::OlderThan`] younger files
    /// are not taken; else it only bears on the recommendation.
    pub age_threshold_days: Option<u64>,
    /// The size in bytes from which an entry is called large. It bears on the
    /// wording alone.
    pub large_file_threshold_bytes: Option<u64>,
    /// The rule comes from the user's rule file.
    pub is_user_defined: bool,
}

/// The value of a [`Rule`].
#[verifier::ext_equal]
pub struct RuleView {
    pub id: Seq<char>,
    pub label: Seq<char>,
    pub description: Seq<char>,
    pub base: KnownDir,
    pub match_kind: MatchKindView,
    pub needs_admin: bool,
    pub safety: Safety,
    pub age_threshold_days: Option<u64>,
    pub large_file_threshold_bytes: Option<u64>,
    pub is_user_defined: bool,
}

impl View for Rule {
    type V = RuleView;

    open spec fn view(&self) -> RuleView {
        RuleView {
            id: self.id@,
            label: self.label@,
            description: self.description@,
            base: self.base,
            match_kind: self.match_kind@,
            needs_admin: self.needs_admin,
            safety: self.safety,
            age_threshold_days: self.age_threshold_days,
            large_file_threshold_bytes: self.large_file_threshold_bytes,
            is_user_defined: self.is_user_defined,
        }
    }
}

impl Clone for Rule {
    fn clone(&self) -> (r: Rule)
        ensures
            r@ == self@,
    {
        Rule {
            id: self.id.clone(),
            label: self.label.clone(),
            description: self.description.clone(),
            base: self.base,
            match_kind: self.match_kind.clone(),
            needs_admin: self.needs_admin,
            safety: self.safety,
            age_threshold_days: self.age_threshold_days,
            large_file_threshold_bytes: self.large_file_threshold_bytes,
            is_user_defined: self.is_user_defined,
        }
    }
}

/// The values of a list of rules.
pub open spec fn rule_views(rules: Seq<Rule>) -> Seq<RuleView> {
    rules.map_values(|r: Rule| r@)
}

impl RuleView {
    /// The rule can be scanned and deleted by a process that has administrator
    /// rights or not, as `elevated` says.
    pub open spec fn permitted(self, elevated: bool) -> bool {
        !self.needs_admin || elevated
    }

    /// The rule may reach into an administrator area.
    pub open spec fn may_touch_admin(self, elevated: bool) -> bool {
        self.needs_admin && elevated
    }
}

/// The rules that are permitted.
pub open spec fn permitted_when(elevated: bool) -> spec_fn(RuleView) -> bool {
    |r: RuleView| r.permitted(elevated)
}

impl Rule {
    /// Whether the rule can be scanned and deleted: administrator rights are
    /// there where it needs them.
    pub fn is_permitted(&self, elevated: bool) -> (r: bool)
        ensures
            r == self@.permitted(elevated),
    {
        !self.needs_admin || elevated
    }

    /// Whether the rule may reach into an administrator area.
    ///
    /// Having the rights is not enough: they were given for the rules that
    /// need them, and no other rule gains from them.
    pub fn may_touch_admin_area(&self, elevated: bool) -> (r: bool)
        ensures
            r == self@.may_touch_admin(elevated),
    {
        self.needs_admin && elevated
    }
}

/// The age threshold of the rule for old logs, in days, unless set otherwise.
pub const OLD_LOG_THRESHOLD_DAYS: u64 = 180;

/// The age threshold of the rule for old downloads, in days, unless set otherwise.
pub const OLD_DOWNLOAD_THRESHOLD_DAYS: u64 = 90;

/// What is said of temporary files of the user, in Japanese.
pub const USER_TEMP_DESCRIPTION: &'static str = "アプリが処理の途中経過を書き出す一時ファイルの置き場です。必要になれば自動的に作り直されるため、削除しても設定やデータは失われません。本日更新されたものなど使用中の可能性があるものは、自動的に推奨から外します。";

/// What is said of temporary files of the user, in English.
pub const USER_TEMP_DESCRIPTION_EN: &'static str = "This is where apps keep temporary files while they work. They are made again when needed, so deleting them loses no settings or data. Items that may be in use, such as those updated today, are left out of the recommendation automatically.";

/// What is said of browser and application caches, in Japanese.
pub const BROWSER_CACHE_DESCRIPTION: &'static str = "Web ページの画像やスクリプトなどを、次回アクセス時に再ダウンロードせずに済ませるための一時保存領域です。削除してもブックマーク・保存済みパスワード・閲覧履歴・ログイン状態は消えません。次にアクセスしたときに自動的に作り直され、その分だけ表示が少し遅くなります。";

/// What is said of browser and application caches, in English.
pub const BROWSER_CACHE_DESCRIPTION_EN: &'static str = "A temporary store that saves images, scripts and other parts of web pages from being downloaded again on the next visit. Deleting it does not remove bookmarks, saved passwords, browsing history or sign-ins. It is made again automatically on the next visit, which makes pages slightly slower to appear.";

/// What is said of the thumbnail cache, in Japanese.
pub const THUMBNAIL_CACHE_DESCRIPTION: &'static str = "エクスプローラーでフォルダを開いたときに、画像や動画の縮小版をすばやく表示するためのキャッシュです。削除しても元の画像・動画そのものは消えません。次に同じフォルダを開いたときに自動的に作り直されます。";

/// What is said of the thumbnail cache, in English.
pub const THUMBNAIL_CACHE_DESCRIPTION_EN: &'static str = "A cache that lets Explorer quickly show small versions of images and videos when a folder is opened. Deleting it does not delete the images and videos themselves. It is made again automatically when the same folder is next opened.";

/// What is said of the recycle bin, in Japanese.
pub const RECYCLE_BIN_DESCRIPTION: &'static str = "すでにゴミ箱へ移動済みのファイルです。ここで削除すると完全に消え、復元できなくなります。見覚えのないファイルが含まれていないか、実行前に一度ゴミ箱の中身を確認してください。";

/// What is said of the recycle bin, in English.
pub const RECYCLE_BIN_DESCRIPTION_EN: &'static str = "Files that have already been moved to the Recycle Bin. Deleting them here removes them for good, and they cannot be restored. Check the Recycle Bin for files that you do not recognize before you run this.";

/// What is said of temporary files of the system, in Japanese.
pub const SYSTEM_TEMP_DESCRIPTION: &'static str = "OS とシステムサービスが使う一時ファイルの置き場です。削除には管理者権限が必要なため、管理者として実行し直した場合のみ対象になります。使用中のファイルは削除できず、失敗として報告されます。";

/// What is said of temporary files of the system, in English.
pub const SYSTEM_TEMP_DESCRIPTION_EN: &'static str = "This is where the OS and system services keep temporary files. Deleting them requires administrator privileges, so they are included only after restarting as administrator. Files in use cannot be deleted and are reported as failed.";

/// What is said of downloaded system updates, in Japanese.
pub const WINDOWS_UPDATE_CACHE_DESCRIPTION: &'static str = "Windows Update が更新プログラムを適用するためにダウンロードしたファイルの置き場です。適用済みの更新については残しておく必要がなく、必要になれば自動的に再ダウンロードされます。削除には管理者権限が必要です。更新の適用中やダウンロード中のファイルは使用中のため削除できず、失敗として報告されます。その場合は再起動後にもう一度お試しください。";

/// What is said of downloaded system updates, in English.
pub const WINDOWS_UPDATE_CACHE_DESCRIPTION_EN: &'static str = "This is where Windows Update keeps the files that it downloaded to install updates. They are not needed for updates that are installed, and are downloaded again automatically when needed. Deleting them requires administrator privileges. Files of updates that are being installed or downloaded are in use, cannot be deleted and are reported as failed. In that case, try again after a restart.";

/// What is said of files kept for update delivery, in Japanese.
pub const DELIVERY_OPTIMIZATION_CACHE_DESCRIPTION: &'static str = "Windows Update やストアアプリの更新を、同じネットワーク上の他の PC と共有するために保存されているファイルです。削除しても、既に適用済みの更新には影響しません。必要になれば自動的に作り直されます。削除には管理者権限が必要です。";

/// What is said of files kept for update delivery, in English.
pub const DELIVERY_OPTIMIZATION_CACHE_DESCRIPTION_EN: &'static str = "Files that are kept to share updates of Windows and Store apps with other PCs on the same network. Deleting them does not affect updates that are already installed. They are made again automatically when needed. Deleting them requires administrator privileges.";

/// What is said of old logs, up to the number of days, in Japanese.
pub const OLD_LOGS_DESCRIPTION_HEAD: &'static str = "アプリが動作記録として書き出したログファイルです。最終更新から";

/// What is said of old logs, up to the number of days, in English.
pub const OLD_LOGS_DESCRIPTION_HEAD_EN: &'static str = "Log files that apps have written as a record of what they did. Those last modified at least ";

/// What is said of old logs, from the number of days on, in Japanese.
pub const OLD_LOGS_DESCRIPTION_TAIL: &'static str = "日以上経過したものを推奨対象としています。過去の不具合を調査する予定がなければ削除して問題ありません。現在調査中の不具合がある場合は残してください。";

/// What is said of old logs, from the number of days on, in English.
pub const OLD_LOGS_DESCRIPTION_TAIL_EN: &'static str = " days ago are recommended. They can be deleted without harm unless you plan to look into past problems. Keep them while you are looking into one.";

/// What is said of old downloads, up to the number of days, in Japanese.
pub const OLD_DOWNLOADS_DESCRIPTION_HEAD: &'static str = "ダウンロードフォルダにあり、最終更新から";

/// What is said of old downloads, up to the number of days, in English.
pub const OLD_DOWNLOADS_DESCRIPTION_HEAD_EN: &'static str = "Files in the Downloads folder that were last modified at least ";

/// What is said of old downloads, from the number of days on, in Japanese.
pub const OLD_DOWNLOADS_DESCRIPTION_TAIL: &'static str = "日以上経過したファイルです。インストーラや資料など、本人にしか要否を判断できないものが含まれます。既定では選択しません。削除する前に必ず中身を確認してください。";

/// What is said of old downloads, from the number of days on, in English.
pub const OLD_DOWNLOADS_DESCRIPTION_TAIL_EN: &'static str = " days ago. Among them are installers, documents and other things that only you can judge. They are not selected by default. Always check what is in them before deleting.";

/// The built-in rules under the settings `config`, in their language.
pub open spec fn builtin(config: Config) -> Seq<RuleView> {
    let lang = config.lang;
    let large = Some(config.large_file_threshold_bytes);
    let logs = config.threshold("old_logs"@, OLD_LOG_THRESHOLD_DAYS);
    let downloads = config.threshold("old_downloads"@, OLD_DOWNLOAD_THRESHOLD_DAYS);
    seq![
        RuleView {
            id: "user_temp"@,
            label: picked(lang, "ユーザー一時ファイル"@, "User temporary files"@),
            description: picked(lang, USER_TEMP_DESCRIPTION@, USER_TEMP_DESCRIPTION_EN@),
            base: KnownDir::UserTemp,
            match_kind: MatchKindView::All,
            needs_admin: false,
            safety: Safety::Safe,
            age_threshold_days: None,
            large_file_threshold_bytes: large,
            is_user_defined: false,
        },
        RuleView {
            id: "browser_cache"@,
            label: picked(lang, "ブラウザ / アプリのキャッシュ"@, "Browser / app cache"@),
            description: picked(lang, BROWSER_CACHE_DESCRIPTION@, BROWSER_CACHE_DESCRIPTION_EN@),
            base: KnownDir::Cache,
            match_kind: MatchKindView::All,
            needs_admin: false,
            safety: Safety::Safe,
            age_threshold_days: None,
            large_file_threshold_bytes: large,
            is_user_defined: false,
        },
        RuleView {
            id: "thumbnail_cache"@,
            label: picked(lang, "サムネイルキャッシュ"@, "Thumbnail cache"@),
            description: picked(
                lang,
                THUMBNAIL_CACHE_DESCRIPTION@,
                THUMBNAIL_CACHE_DESCRIPTION_EN@,
            ),
            base: KnownDir::ThumbnailCache,
            match_kind: MatchKindView::Extension(seq!["db"@]),
            needs_admin: false,
            safety: Safety::Safe,
            age_threshold_days: None,
            large_file_threshold_bytes: None,
            is_user_defined: false,
        },
        RuleView {
            id: "recycle_bin"@,
            label: picked(lang, "ゴミ箱"@, "Recycle Bin"@),
            description: picked(lang, RECYCLE_BIN_DESCRIPTION@, RECYCLE_BIN_DESCRIPTION_EN@),
            base: KnownDir::RecycleBin,
            match_kind: MatchKindView::All,
            needs_admin: false,
            safety: Safety::Caution,
            age_threshold_days: None,
            large_file_threshold_bytes: None,
            is_user_defined: false,
        },
        RuleView {
            id: "old_logs"@,
            label: picked(lang, "古いログ（"@, "Old logs (over "@) + decimal(logs as nat) + picked(
                lang,
                "日超）"@,
                " days)"@,
            ),
            description: picked(
                lang,
                OLD_LOGS_DESCRIPTION_HEAD@,
                OLD_LOGS_DESCRIPTION_HEAD_EN@,
            ) + decimal(logs as nat) + picked(
                lang,
                OLD_LOGS_DESCRIPTION_TAIL@,
                OLD_LOGS_DESCRIPTION_TAIL_EN@,
            ),
            base: KnownDir::LocalAppData,
            match_kind: MatchKindView::Extension(seq!["log"@]),
            needs_admin: false,
            safety: Safety::Caution,
            age_threshold_days: Some(logs),
            large_file_threshold_bytes: large,
            is_user_defined: false,
        },
        RuleView {
            id: "old_downloads"@,
            label: picked(lang, "古いダウンロード（"@, "Old downloads (over "@) + decimal(downloads as nat) + picked(
                lang,
                "日超）"@,
                " days)"@,
            ),
            description: picked(
                lang,
                OLD_DOWNLOADS_DESCRIPTION_HEAD@,
                OLD_DOWNLOADS_DESCRIPTION_HEAD_EN@,
            ) + decimal(downloads as nat) + picked(
                lang,
                OLD_DOWNLOADS_DESCRIPTION_TAIL@,
                OLD_DOWNLOADS_DESCRIPTION_TAIL_EN@,
            ),
            base: KnownDir::Downloads,
            match_kind: MatchKindView::OlderThan,
            needs_admin: false,
            safety: Safety::Review,
            age_threshold_days: Some(downloads),
            large_file_threshold_bytes: large,
            is_user_defined: false,
        },
        RuleView {
            id: "system_temp"@,
            label: picked(lang, "システム一時ファイル"@, "System temporary files"@),
            description: picked(lang, SYSTEM_TEMP_DESCRIPTION@, SYSTEM_TEMP_DESCRIPTION_EN@),
            base: KnownDir::SystemTemp,
            match_kind: MatchKindView::All,
            needs_admin: true,
            safety: Safety::Review,
            age_threshold_days: None,
            large_file_threshold_bytes: None,
            is_user_defined: false,
        },
        RuleView {
            id: "windows_update_cache"@,
            label: picked(lang, "Windows Update のダウンロード済みファイル"@, "Windows Update downloads"@),
            description: picked(
                lang,
                WINDOWS_UPDATE_CACHE_DESCRIPTION@,
                WINDOWS_UPDATE_CACHE_DESCRIPTION_EN@,
            ),
            base: KnownDir::WindowsUpdateCache,
            match_kind: MatchKindView::All,
            needs_admin: true,
            safety: Safety::Review,
            age_threshold_days: None,
            large_file_threshold_bytes: None,
            is_user_defined: false,
        },
        RuleView {
            id: "delivery_optimization_cache"@,
            label: picked(lang, "配信の最適化ファイル"@, "Delivery Optimization files"@),
            description: picked(
                lang,
                DELIVERY_OPTIMIZATION_CACHE_DESCRIPTION@,
                DELIVERY_OPTIMIZATION_CACHE_DESCRIPTION_EN@,
            ),
            base: KnownDir::DeliveryOptimizationCache,
            match_kind: MatchKindView::All,
            needs_admin: true,
            safety: Safety::Review,
            age_threshold_days: None,
            large_file_threshold_bytes: None,
            is_user_defined: false,
        },
    ]
}

/// `head`, a number of days, `tail`.
fn with_days(head: &str, days: u64, tail: &str) -> (r: String)
    ensures
        r@ == head@ + decimal(days as nat) + tail@,
{
    let mut r = head.to_owned();
    push_decimal(&mut r, days);
    r.append(tail);
    r
}

fn one_extension(ext: &str) -> (r: MatchKind)
    ensures
        r@ == MatchKindView::Extension(seq![ext@]),
{
    let mut exts: Vec<String> = Vec::new();
    exts.push(ext.to_owned());
    assert(texts_of(exts@) =~= seq![ext@]);
    MatchKind::Extension(exts)
}

/// The built-in rules, those that need administrator rights among them.
///
/// A rule that needs them is never anything but [`Safety::Review`]: what frees
/// much space is not for that reason safe to select unseen.
pub fn builtin_rules(config: &Config) -> (r: Vec<Rule>)
    ensures
        rule_views(r@) == builtin(*config),
{
    let lang: Lang = config.lang;
    let large: Option<u64> = Some(config.large_file_threshold_bytes);
    let logs: u64 = config.age_threshold_days("old_logs", OLD_LOG_THRESHOLD_DAYS);
    let downloads: u64 = config.age_threshold_days("old_downloads", OLD_DOWNLOAD_THRESHOLD_DAYS);
    let mut rules: Vec<Rule> = Vec::new();
    rules.push(
        Rule {
            id: "user_temp".to_owned(),
            label: pick(lang, "ユーザー一時ファイル", "User temporary files").to_owned(),
            description: pick(lang, USER_TEMP_DESCRIPTION, USER_TEMP_DESCRIPTION_EN).to_owned(),
            base: KnownDir::UserTemp,
            match_kind: MatchKind::All,
            needs_admin: false,
            safety: Safety::Safe,
            age_threshold_days: None,
            large_file_threshold_bytes: large,
            is_user_defined: false,
        },
    );
    rules.push(
        Rule {
            id: "browser_cache".to_owned(),
            label: pick(lang, "ブラウザ / アプリのキャッシュ", "Browser / app cache").to_owned(),
            description: pick(
                lang,
                BROWSER_CACHE_DESCRIPTION,
                BROWSER_CACHE_DESCRIPTION_EN,
            ).to_owned(),
            base: KnownDir::Cache,
            match_kind: MatchKind::All,
            needs_admin: false,
            safety: Safety::Safe,
            age_threshold_days: None,
            large_file_threshold_bytes: large,
            is_user_defined: false,
        },
    );
    rules.push(
        Rule {
            id: "thumbnail_cache".to_owned(),
            label: pick(lang, "サムネイルキャッシュ", "Thumbnail cache").to_owned(),
            description: pick(
                lang,
                THUMBNAIL_CACHE_DESCRIPTION,
                THUMBNAIL_CACHE_DESCRIPTION_EN,
            ).to_owned(),
            base: KnownDir::ThumbnailCache,
            match_kind: one_extension("db"),
            needs_admin: false,
            safety: Safety::Safe,
            age_threshold_days: None,
            large_file_threshold_bytes: None,
            is_user_defined: false,
        },
    );
    rules.push(
        Rule {
            id: "recycle_bin".to_owned(),
            label: pick(lang, "ゴミ箱", "Recycle Bin").to_owned(),
            description: pick(lang, RECYCLE_BIN_DESCRIPTION, RECYCLE_BIN_DESCRIPTION_EN).to_owned(),
            base: KnownDir::RecycleBin,
            match_kind: MatchKind::All,
            needs_admin: false,
            safety: Safety::Caution,
            age_threshold_days: None,
            large_file_threshold_bytes: None,
            is_user_defined: false,
        },
    );
    rules.push(
        Rule {
            id: "old_logs".to_owned(),
            label: with_days(
                pick(lang, "古いログ（", "Old logs (over "),
                logs,
                pick(lang, "日超）", " days)"),
            ),
            description: with_days(
                pick(lang, OLD_LOGS_DESCRIPTION_HEAD, OLD_LOGS_DESCRIPTION_HEAD_EN),
                logs,
                pick(lang, OLD_LOGS_DESCRIPTION_TAIL, OLD_LOGS_DESCRIPTION_TAIL_EN),
            ),
            base: KnownDir::LocalAppData,
            match_kind: one_extension("log"),
            needs_admin: false,
            safety: Safety::Caution,
            age_threshold_days: Some(logs),
            large_file_threshold_bytes: large,
            is_user_defined: false,
        },
    );
    rules.push(
        Rule {
            id: "old_downloads".to_owned(),
            label: with_days(
                pick(lang, "古いダウンロード（", "Old downloads (over "),
                downloads,
                pick(lang, "日超）", " days)"),
            ),
            description: with_days(
                pick(lang, OLD_DOWNLOADS_DESCRIPTION_HEAD, OLD_DOWNLOADS_DESCRIPTION_HEAD_EN),
                downloads,
                pick(lang, OLD_DOWNLOADS_DESCRIPTION_TAIL, OLD_DOWNLOADS_DESCRIPTION_TAIL_EN),
            ),
            base: KnownDir::Downloads,
            match_kind: MatchKind::OlderThan,
            needs_admin: false,
            safety: Safety::Review,
            age_threshold_days: Some(downloads),
            large_file_threshold_bytes: large,
            is_user_defined: false,
        },
    );
    rules.push(
        Rule {
            id: "system_temp".to_owned(),
            label: pick(lang, "システム一時ファイル", "System temporary files").to_owned(),
            description: pick(lang, SYSTEM_TEMP_DESCRIPTION, SYSTEM_TEMP_DESCRIPTION_EN).to_owned(),
            base: KnownDir::SystemTemp,
            match_kind: MatchKind::All,
            needs_admin: true,
            safety: Safety::Review,
            age_threshold_days: None,
            large_file_threshold_bytes: None,
            is_user_defined: false,
        },
    );
    rules.push(
        Rule {
            id: "windows_update_cache".to_owned(),
            label: pick(
                lang,
                "Windows Update のダウンロード済みファイル",
                "Windows Update downloads",
            ).to_owned(),
            description: pick(
                lang,
                WINDOWS_UPDATE_CACHE_DESCRIPTION,
                WINDOWS_UPDATE_CACHE_DESCRIPTION_EN,
            ).to_owned(),
            base: KnownDir::WindowsUpdateCache,
            match_kind: MatchKind::All,
            needs_admin: true,
            safety: Safety::Review,
            age_threshold_days: None,
            large_file_threshold_bytes: None,
            is_user_defined: false,
        },
    );
    rules.push(
        Rule {
            id: "delivery_optimization_cache".to_owned(),
            label: pick(lang, "配信の最適化ファイル", "Delivery Optimization files").to_owned(),
            description: pick(
                lang,
                DELIVERY_OPTIMIZATION_CACHE_DESCRIPTION,
                DELIVERY_OPTIMIZATION_CACHE_DESCRIPTION_EN,
            ).to_owned(),
            base: KnownDir::DeliveryOptimizationCache,
            match_kind: MatchKind::All,
            needs_admin: true,
            safety: Safety::Review,
            age_threshold_days: None,
            large_file_threshold_bytes: None,
            is_user_defined: false,
        },
    );
    assert(rule_views(rules@) =~= builtin(*config));
    rules
}

pub(crate) proof fn views_of_push(rules: Seq<Rule>, rule: Rule)
    ensures
        rule_views(rules.push(rule)) == rule_views(rules).push(rule@),
{
    assert(rule_views(rules.push(rule)) =~= rule_views(rules).push(rule@));
}

/// The rules of `rules` that a process can scan and delete, in their order.
pub(crate) fn keep_permitted(rules: &Vec<Rule>, elevated: bool) -> (r: Vec<Rule>)
    ensures
        rule_views(r@) == rule_views(rules@).filter(permitted_when(elevated)),
{
    let ghost all = rule_views(rules@);
    let ghost keep = permitted_when(elevated);
    let mut r: Vec<Rule> = Vec::new();
    let mut i: usize = 0;
    assert(rule_views(r@) =~= all.take(0).filter(keep)) by {
        reveal(Seq::filter);
    }
    while i < rules.len()
        invariant
            i <= rules@.len(),
            all == rule_views(rules@),
            keep == permitted_when(elevated),
            rule_views(r@) == all.take(i as int).filter(keep),
        decreases rules@.len() - i,
    {
        let rule = &rules[i];
        proof {
            assert(all.take(i + 1) =~= all.take(i as int).push(rule@));
            all.take(i as int).lemma_filter_push(rule@, keep);
        }
        if rule.is_permitted(elevated) {
            let copy = rule.clone();
            proof {
                views_of_push(r@, copy);
            }
            r.push(copy);
        }
        i = i + 1;
    }
    assert(all.take(i as int) =~= all);
    r
}

/// The built-in rules that a process can scan and delete: all of them with
/// administrator rights, else those that need none.
pub fn scannable_rules(config: &Config, elevated: bool) -> (r: Vec<Rule>)
    ensures
        rule_views(r@) == builtin(*config).filter(permitted_when(elevated)),
{
    let rules = builtin_rules(config);
    keep_permitted(&rules, elevated)
}

/// The first rule with the id `id`.
pub open spec fn first_rule(rules: Seq<RuleView>, id: Seq<char>) -> Option<RuleView>
    decreases rules.len(),
{
    if rules.len() == 0 {
        None
    } else if rules[0].id == id {
        Some(rules[0])
    } else {
        first_rule(rules.drop_first(), id)
    }
}

/// The first rule with the id `id`.
pub fn find_rule<'a>(rules: &'a [Rule], id: &str) -> (r: Option<&'a Rule>)
    ensures
        r is Some == first_rule(rule_views(rules@), id@) is Some,
        r is Some ==> r->0@ == first_rule(rule_views(rules@), id@)->0,
{
    let ghost all = rule_views(rules@);
    let mut i: usize = 0;
    assert(all.skip(0) =~= all);
    while i < rules.len()
        invariant
            i <= rules@.len(),
            all == rule_views(rules@),
            first_rule(all, id@) == first_rule(all.skip(i as int), id@),
        decreases rules@.len() - i,
    {
        assert(all.skip(i as int)[0] == rules@[i as int]@);
        assert(all.skip(i as int).drop_first() =~= all.skip(i + 1));
        if crate::text::same_text(rules[i].id.as_str(), id) {
            return Some(&rules[i]);
        }
        i = i + 1;
    }
    None
}

/// A rule that is found has the id that was looked for, and is one of the rules.
pub proof fn first_rule_is_a_rule(rules: Seq<RuleView>, id: Seq<char>)
    requires
        first_rule(rules, id) is Some,
    ensures
        first_rule(rules, id)->0.id == id,
        rules.contains(first_rule(rules, id)->0),
    decreases rules.len(),
{
    if rules[0].id != id {
        let rest = rules.drop_first();
        first_rule_is_a_rule(rest, id);
        let i = choose|i: int| 0 <= i < rest.len() && rest[i] == first_rule(rest, id)->0;
        assert(rules[i + 1] == rest[i]);
    }
}

/// The rule that is found for an id is the first one that has it, and there is
/// none only where no rule has it.
pub proof fn first_rule_is_the_first(rules: Seq<RuleView>, id: Seq<char>, r: int)
    requires
        0 <= r <= rules.len(),
        r < rules.len() ==> rules[r].id == id,
        forall|q: int| 0 <= q < r ==> (#[trigger] rules[q]).id != id,
    ensures
        r == rules.len() ==> first_rule(rules, id) is None,
        r < rules.len() ==> first_rule(rules, id) == Some(rules[r]),
    decreases rules.len(),
{
    if r > 0 {
        let rest = rules.drop_first();
        assert forall|q: int| 0 <= q < r - 1 implies (#[trigger] rest[q]).id != id by {
            assert(rest[q] == rules[q + 1]);
        }
        assert(rules[0].id != id);
        first_rule_is_the_first(rest, id, r - 1);
    }
}

// ---- What holds of the built-in rules ----

/// No two built-in rules have the same id.
pub proof fn builtin_ids_are_unique(config: Config, i: int, j: int)
    requires
        0 <= i < j < builtin(config).len(),
    ensures
        builtin(config)[i].id != builtin(config)[j].id,
{
    reveal_strlit("user_temp");
    reveal_strlit("browser_cache");
    reveal_strlit("thumbnail_cache");
    reveal_strlit("recycle_bin");
    reveal_strlit("old_logs");
    reveal_strlit("old_downloads");
    reveal_strlit("system_temp");
    reveal_strlit("windows_update_cache");
    reveal_strlit("delivery_optimization_cache");
    let rules = builtin(config);
    assert(rules[0].id.len() == 9);
    assert(rules[1].id.len() == 13 && rules[1].id[0] == 'b');
    assert(rules[2].id.len() == 15);
    assert(rules[3].id.len() == 11 && rules[3].id[0] == 'r');
    assert(rules[4].id.len() == 8);
    assert(rules[5].id.len() == 13 && rules[5].id[0] == 'o');
    assert(rules[6].id.len() == 11 && rules[6].id[0] == 's');
    assert(rules[7].id.len() == 20);
    assert(rules[8].id.len() == 27);
}

/// Every built-in rule that needs administrator rights is to be reviewed.
pub proof fn admin_rules_are_review(config: Config, i: int)
    requires
        0 <= i < builtin(config).len(),
        builtin(config)[i].needs_admin,
    ensures
        builtin(config)[i].safety == Safety::Review,
{
}

/// With administrator rights every built-in rule can be scanned.
pub proof fn all_rules_are_scannable_when_elevated(config: Config)
    ensures
        builtin(config).filter(permitted_when(true)) == builtin(config),
{
    crate::seqs::filter_keeps_all(builtin(config), permitted_when(true));
}

/// A text that is not empty and holds neither of the characters that mark a
/// concrete path.
pub open spec fn is_plain(s: Seq<char>) -> bool {
    s.len() > 0 && !s.contains(':') && !s.contains('\\')
}

proof fn plain_concat(a: Seq<char>, b: Seq<char>)
    requires
        is_plain(a),
        is_plain(b),
    ensures
        is_plain(a + b),
{
    assert forall|c: char| (a + b).contains(c) implies a.contains(c) || b.contains(c) by {
        let i = choose|i: int| 0 <= i < (a + b).len() && (a + b)[i] == c;
        if i < a.len() {
            assert(a[i] == c);
        } else {
            assert(b[i - a.len()] == c);
        }
    }
}

proof fn decimal_is_plain(n: nat)
    ensures
        is_plain(decimal(n)),
    decreases n,
{
    if n < 10 {
        assert(decimal(n)[0] == crate::text::digit(n));
    } else {
        decimal_is_plain(n / 10);
        let last = seq![crate::text::digit(n % 10)];
        assert(last[0] == crate::text::digit(n % 10));
        assert(is_plain(last));
        plain_concat(decimal(n / 10), last);
        assert(decimal(n) =~= decimal(n / 10) + last);
    }
}

proof fn user_temp_description_is_plain()
    ensures
        is_plain(USER_TEMP_DESCRIPTION@),
        is_plain(USER_TEMP_DESCRIPTION_EN@),
{
    reveal_strlit("アプリが処理の途中経過を書き出す一時ファイルの置き場です。必要になれば自動的に作り直されるため、削除しても設定やデータは失われません。本日更新されたものなど使用中の可能性があるものは、自動的に推奨から外します。");
    reveal_strlit("This is where apps keep temporary files while they work. They are made again when needed, so deleting them loses no settings or data. Items that may be in use, such as those updated today, are left out of the recommendation automatically.");
}

proof fn browser_cache_description_is_plain()
    ensures
        is_plain(BROWSER_CACHE_DESCRIPTION@),
        is_plain(BROWSER_CACHE_DESCRIPTION_EN@),
{
    reveal_strlit("Web ページの画像やスクリプトなどを、次回アクセス時に再ダウンロードせずに済ませるための一時保存領域です。削除してもブックマーク・保存済みパスワード・閲覧履歴・ログイン状態は消えません。次にアクセスしたときに自動的に作り直され、その分だけ表示が少し遅くなります。");
    reveal_strlit("A temporary store that saves images, scripts and other parts of web pages from being downloaded again on the next visit. Deleting it does not remove bookmarks, saved passwords, browsing history or sign-ins. It is made again automatically on the next visit, which makes pages slightly slower to appear.");
}

proof fn thumbnail_cache_description_is_plain()
    ensures
        is_plain(THUMBNAIL_CACHE_DESCRIPTION@),
        is_plain(THUMBNAIL_CACHE_DESCRIPTION_EN@),
{
    reveal_strlit("エクスプローラーでフォルダを開いたときに、画像や動画の縮小版をすばやく表示するためのキャッシュです。削除しても元の画像・動画そのものは消えません。次に同じフォルダを開いたときに自動的に作り直されます。");
    reveal_strlit("A cache that lets Explorer quickly show small versions of images and videos when a folder is opened. Deleting it does not delete the images and videos themselves. It is made again automatically when the same folder is next opened.");
}

proof fn recycle_bin_description_is_plain()
    ensures
        is_plain(RECYCLE_BIN_DESCRIPTION@),
        is_plain(RECYCLE_BIN_DESCRIPTION_EN@),
{
    reveal_strlit("すでにゴミ箱へ移動済みのファイルです。ここで削除すると完全に消え、復元できなくなります。見覚えのないファイルが含まれていないか、実行前に一度ゴミ箱の中身を確認してください。");
    reveal_strlit("Files that have already been moved to the Recycle Bin. Deleting them here removes them for good, and they cannot be restored. Check the Recycle Bin for files that you do not recognize before you run this.");
}

proof fn system_temp_description_is_plain()
    ensures
        is_plain(SYSTEM_TEMP_DESCRIPTION@),
        is_plain(SYSTEM_TEMP_DESCRIPTION_EN@),
{
    reveal_strlit("OS とシステムサービスが使う一時ファイルの置き場です。削除には管理者権限が必要なため、管理者として実行し直した場合のみ対象になります。使用中のファイルは削除できず、失敗として報告されます。");
    reveal_strlit("This is where the OS and system services keep temporary files. Deleting them requires administrator privileges, so they are included only after restarting as administrator. Files in use cannot be deleted and are reported as failed.");
}

proof fn windows_update_cache_description_is_plain()
    ensures
        is_plain(WINDOWS_UPDATE_CACHE_DESCRIPTION@),
        is_plain(WINDOWS_UPDATE_CACHE_DESCRIPTION_EN@),
{
    reveal_strlit("Windows Update が更新プログラムを適用するためにダウンロードしたファイルの置き場です。適用済みの更新については残しておく必要がなく、必要になれば自動的に再ダウンロードされます。削除には管理者権限が必要です。更新の適用中やダウンロード中のファイルは使用中のため削除できず、失敗として報告されます。その場合は再起動後にもう一度お試しください。");
    reveal_strlit("This is where Windows Update keeps the files that it downloaded to install updates. They are not needed for updates that are installed, and are downloaded again automatically when needed. Deleting them requires administrator privileges. Files of updates that are being installed or downloaded are in use, cannot be deleted and are reported as failed. In that case, try again after a restart.");
}

proof fn delivery_optimization_cache_description_is_plain()
    ensures
        is_plain(DELIVERY_OPTIMIZATION_CACHE_DESCRIPTION@),
        is_plain(DELIVERY_OPTIMIZATION_CACHE_DESCRIPTION_EN@),
{
    reveal_strlit("Windows Update やストアアプリの更新を、同じネットワーク上の他の PC と共有するために保存されているファイルです。削除しても、既に適用済みの更新には影響しません。必要になれば自動的に作り直されます。削除には管理者権限が必要です。");
    reveal_strlit("Files that are kept to share updates of Windows and Store apps with other PCs on the same network. Deleting them does not affect updates that are already installed. They are made again automatically when needed. Deleting them requires administrator privileges.");
}

proof fn old_logs_description_head_is_plain()
    ensures
        is_plain(OLD_LOGS_DESCRIPTION_HEAD@),
        is_plain(OLD_LOGS_DESCRIPTION_HEAD_EN@),
{
    reveal_strlit("アプリが動作記録として書き出したログファイルです。最終更新から");
    reveal_strlit("Log files that apps have written as a record of what they did. Those last modified at least ");
}

proof fn old_logs_description_tail_is_plain()
    ensures
        is_plain(OLD_LOGS_DESCRIPTION_TAIL@),
        is_plain(OLD_LOGS_DESCRIPTION_TAIL_EN@),
{
    reveal_strlit("日以上経過したものを推奨対象としています。過去の不具合を調査する予定がなければ削除して問題ありません。現在調査中の不具合がある場合は残してください。");
    reveal_strlit(" days ago are recommended. They can be deleted without harm unless you plan to look into past problems. Keep them while you are looking into one.");
}

proof fn old_downloads_description_head_is_plain()
    ensures
        is_plain(OLD_DOWNLOADS_DESCRIPTION_HEAD@),
        is_plain(OLD_DOWNLOADS_DESCRIPTION_HEAD_EN@),
{
    reveal_strlit("ダウンロードフォルダにあり、最終更新から");
    reveal_strlit("Files in the Downloads folder that were last modified at least ");
}

proof fn old_downloads_description_tail_is_plain()
    ensures
        is_plain(OLD_DOWNLOADS_DESCRIPTION_TAIL@),
        is_plain(OLD_DOWNLOADS_DESCRIPTION_TAIL_EN@),
{
    reveal_strlit("日以上経過したファイルです。インストーラや資料など、本人にしか要否を判断できないものが含まれます。既定では選択しません。削除する前に必ず中身を確認してください。");
    reveal_strlit(" days ago. Among them are installers, documents and other things that only you can judge. They are not selected by default. Always check what is in them before deleting.");
}

proof fn labels_are_plain()
    ensures
        is_plain("ユーザー一時ファイル"@),
        is_plain("User temporary files"@),
        is_plain("ブラウザ / アプリのキャッシュ"@),
        is_plain("Browser / app cache"@),
        is_plain("サムネイルキャッシュ"@),
        is_plain("Thumbnail cache"@),
        is_plain("ゴミ箱"@),
        is_plain("Recycle Bin"@),
        is_plain("システム一時ファイル"@),
        is_plain("System temporary files"@),
        is_plain("Windows Update のダウンロード済みファイル"@),
        is_plain("Windows Update downloads"@),
        is_plain("配信の最適化ファイル"@),
        is_plain("Delivery Optimization files"@),
        is_plain("古いログ（"@),
        is_plain("Old logs (over "@),
        is_plain("古いダウンロード（"@),
        is_plain("Old downloads (over "@),
        is_plain("日超）"@),
        is_plain(" days)"@),
{
    reveal_strlit("ユーザー一時ファイル");
    reveal_strlit("User temporary files");
    reveal_strlit("ブラウザ / アプリのキャッシュ");
    reveal_strlit("Browser / app cache");
    reveal_strlit("サムネイルキャッシュ");
    reveal_strlit("Thumbnail cache");
    reveal_strlit("ゴミ箱");
    reveal_strlit("Recycle Bin");
    reveal_strlit("システム一時ファイル");
    reveal_strlit("System temporary files");
    reveal_strlit("Windows Update のダウンロード済みファイル");
    reveal_strlit("Windows Update downloads");
    reveal_strlit("配信の最適化ファイル");
    reveal_strlit("Delivery Optimization files");
    reveal_strlit("古いログ（");
    reveal_strlit("Old logs (over ");
    reveal_strlit("古いダウンロード（");
    reveal_strlit("Old downloads (over ");
    reveal_strlit("日超）");
    reveal_strlit(" days)");
}

proof fn plain_text_with_days(head: Seq<char>, days: nat, tail: Seq<char>)
    requires
        is_plain(head),
        is_plain(tail),
    ensures
        is_plain(head + decimal(days) + tail),
{
    decimal_is_plain(days);
    plain_concat(head, decimal(days));
    plain_concat(head + decimal(days), tail);
}

/// Every built-in rule says something to the user, and nothing that it says
/// shows a concrete path, whatever the settings are.
pub proof fn builtin_texts_are_plain(config: Config, i: int)
    requires
        0 <= i < builtin(config).len(),
    ensures
        is_plain(builtin(config)[i].id),
        is_plain(builtin(config)[i].label),
        is_plain(builtin(config)[i].description),
{
    let lang = config.lang;
    let logs = config.threshold("old_logs"@, OLD_LOG_THRESHOLD_DAYS) as nat;
    let downloads = config.threshold("old_downloads"@, OLD_DOWNLOAD_THRESHOLD_DAYS) as nat;
    reveal_strlit("user_temp");
    reveal_strlit("browser_cache");
    reveal_strlit("thumbnail_cache");
    reveal_strlit("recycle_bin");
    reveal_strlit("old_logs");
    reveal_strlit("old_downloads");
    reveal_strlit("system_temp");
    reveal_strlit("windows_update_cache");
    reveal_strlit("delivery_optimization_cache");
    labels_are_plain();
    user_temp_description_is_plain();
    browser_cache_description_is_plain();
    thumbnail_cache_description_is_plain();
    recycle_bin_description_is_plain();
    system_temp_description_is_plain();
    windows_update_cache_description_is_plain();
    delivery_optimization_cache_description_is_plain();
    old_logs_description_head_is_plain();
    old_logs_description_tail_is_plain();
    old_downloads_description_head_is_plain();
    old_downloads_description_tail_is_plain();
    plain_text_with_days(
        picked(lang, "古いログ（"@, "Old logs (over "@),
        logs,
        picked(lang, "日超）"@, " days)"@),
    );
    plain_text_with_days(
        picked(lang, "古いダウンロード（"@, "Old downloads (over "@),
        downloads,
        picked(lang, "日超）"@, " days)"@),
    );
    plain_text_with_days(
        picked(lang, OLD_LOGS_DESCRIPTION_HEAD@, OLD_LOGS_DESCRIPTION_HEAD_EN@),
        logs,
        picked(lang, OLD_LOGS_DESCRIPTION_TAIL@, OLD_LOGS_DESCRIPTION_TAIL_EN@),
    );
    plain_text_with_days(
        picked(lang, OLD_DOWNLOADS_DESCRIPTION_HEAD@, OLD_DOWNLOADS_DESCRIPTION_HEAD_EN@),
        downloads,
        picked(lang, OLD_DOWNLOADS_DESCRIPTION_TAIL@, OLD_DOWNLOADS_DESCRIPTION_TAIL_EN@),
    );
}

/// The language changes the words of a built-in rule, and nothing of what it
/// does.
pub proof fn language_does_not_change_the_rules(config: Config, lang: Lang, i: int)
    requires
        0 <= i < builtin(config).len(),
    ensures
        ({
            let other = Config { lang, ..config };
            &&& builtin(other).len() == builtin(config).len()
            &&& builtin(other)[i] == (RuleView {
                label: builtin(other)[i].label,
                description: builtin(other)[i].description,
                ..builtin(config)[i]
            })
        }),
{
}

// ---- What the built-in rules are ----

/// The rule looks into `base`, takes what `match_kind` says, has the safety
/// `safety`, and touches administrator areas only where `needs_admin` says so.
pub open spec fn is_rule(
    rule: RuleView,
    id: Seq<char>,
    base: KnownDir,
    match_kind: MatchKindView,
    safety: Safety,
    needs_admin: bool,
) -> bool {
    &&& rule.id == id
    &&& rule.base == base
    &&& rule.match_kind == match_kind
    &&& rule.safety == safety
    &&& rule.needs_admin == needs_admin
    &&& !rule.is_user_defined
}

/// Whatever the settings are, the same nine rules are built in, in this order:
/// three whose files are made again by themselves, the recycle bin and old logs
/// to be handled with care, old downloads to be looked at, and three areas that
/// only an administrator can clean.
pub proof fn which_rules_are_built_in(config: Config)
    ensures
        ({
            let rules = builtin(config);
            &&& rules.len() == 9
            &&& is_rule(
                rules[0],
                "user_temp"@,
                KnownDir::UserTemp,
                MatchKindView::All,
                Safety::Safe,
                false,
            )
            &&& is_rule(
                rules[1],
                "browser_cache"@,
                KnownDir::Cache,
                MatchKindView::All,
                Safety::Safe,
                false,
            )
            &&& is_rule(
                rules[2],
                "thumbnail_cache"@,
                KnownDir::ThumbnailCache,
                MatchKindView::Extension(seq!["db"@]),
                Safety::Safe,
                false,
            )
            &&& is_rule(
                rules[3],
                "recycle_bin"@,
                KnownDir::RecycleBin,
                MatchKindView::All,
                Safety::Caution,
                false,
            )
            &&& is_rule(
                rules[4],
                "old_logs"@,
                KnownDir::LocalAppData,
                MatchKindView::Extension(seq!["log"@]),
                Safety::Caution,
                false,
            )
            &&& is_rule(
                rules[5],
                "old_downloads"@,
                KnownDir::Downloads,
                MatchKindView::OlderThan,
                Safety::Review,
                false,
            )
            &&& is_rule(
                rules[6],
                "system_temp"@,
                KnownDir::SystemTemp,
                MatchKindView::All,
                Safety::Review,
                true,
            )
            &&& is_rule(
                rules[7],
                "windows_update_cache"@,
                KnownDir::WindowsUpdateCache,
                MatchKindView::All,
                Safety::Review,
                true,
            )
            &&& is_rule(
                rules[8],
                "delivery_optimization_cache"@,
                KnownDir::DeliveryOptimizationCache,
                MatchKindView::All,
                Safety::Review,
                true,
            )
        }),
{
}

/// Old logs and old downloads, and no other built-in rules, have an age
/// threshold: what the user set for them last, within the range, or else 180 and
/// 90 days. Their labels tell it.
pub proof fn which_rules_have_thresholds(config: Config, k: int)
    requires
        0 <= k < builtin(config).len(),
    ensures
        builtin(config)[k].age_threshold_days is Some <==> k == 4 || k == 5,
        k == 4 ==> builtin(config)[k].age_threshold_days == Some(
            config.threshold("old_logs"@, 180),
        ),
        k == 5 ==> builtin(config)[k].age_threshold_days == Some(
            config.threshold("old_downloads"@, 90),
        ),
        k == 4 || k == 5 ==> 1 <= builtin(config)[k].age_threshold_days->0 <= 3650,
        builtin(config)[k].large_file_threshold_bytes == (if k == 0 || k == 1 || k == 4 || k == 5 {
            Some(config.large_file_threshold_bytes)
        } else {
            None
        }),
{
}

/// Without administrator rights the rules that need them are left out, and no
/// others; with them all rules are used.
pub proof fn which_rules_are_permitted(rules: Seq<RuleView>, elevated: bool, k: int)
    requires
        0 <= k < rules.len(),
    ensures
        rules.filter(permitted_when(elevated)).contains(rules[k]) <==> elevated
            || !rules[k].needs_admin,
        rules[k].may_touch_admin(elevated) <==> elevated && rules[k].needs_admin,
{
    if rules[k].permitted(elevated) {
        rules.lemma_filter_contains(permitted_when(elevated), k);
    }
    if rules.filter(permitted_when(elevated)).contains(rules[k]) {
        let kept = rules.filter(permitted_when(elevated));
        let i = choose|i: int| 0 <= i < kept.len() && kept[i] == rules[k];
        rules.lemma_filter_pred(permitted_when(elevated), i);
    }
}

} // verus!
