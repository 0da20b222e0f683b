//! The boundary to the operating system.
//!
//! Everything that differs between operating systems stands behind
//! [`Platform`]. The rest of the library speaks of directories by
//! [`KnownDir`] alone and never writes a concrete path down.

pub mod unknown;
pub mod windows;

use crate::path::{FilePath, FilePathView};
use crate::text::texts_of;
use vstd::prelude::*;

verus! {

/// A directory that a rule can start from, named without its concrete path.
#[derive(Debug, Clone, Copy, PartialEq, Eq, Hash, Structural)]
pub enum KnownDir {
    /// Temporary files of the user.
    UserTemp,
    /// Temporary files of the system.
    SystemTemp,
    /// Application data of the user.
    LocalAppData,
    /// Caches.
    Cache,
    /// The recycle bin.
    RecycleBin,
    /// Downloads.
    Downloads,
    /// The thumbnail cache.
    ThumbnailCache,
    /// Downloaded system updates.
    ///
    /// Only the download folder, never the update history beside it.
    WindowsUpdateCache,
    /// Files kept for update delivery between machines, in the local profile
    /// of the network service account.
    DeliveryOptimizationCache,
}

/// Why an operation of a [`Platform`] failed.
#[derive(Debug)]
pub enum PlatformError {
    /// An input/output error, by its text.
    Io(String),
    /// Moving to the trash failed, by its text.
    Trash(String),
    /// This operating system does not offer the operation.
    Unsupported(&'static str),
}

impl PlatformError {
    /// The text that is shown for the error.
    pub open spec fn text(self) -> Seq<char> {
        match self {
            PlatformError::Io(e) => "I/O エラー: "@ + e@,
            PlatformError::Trash(m) => "ゴミ箱送りに失敗しました: "@ + m@,
            PlatformError::Unsupported(op) => "この OS では未対応の操作です: "@ + op@,
        }
    }

    /// The text that is shown for the error.
    pub fn message(&self) -> (r: String)
        ensures
            r@ == self.text(),
    {
        match self {
            PlatformError::Io(e) => "I/O エラー: ".to_owned().concat(e.as_str()),
            PlatformError::Trash(m) => "ゴミ箱送りに失敗しました: ".to_owned().concat(m.as_str()),
            PlatformError::Unsupported(op) => "この OS では未対応の操作です: ".to_owned().concat(op),
        }
    }
}

/// Why starting again with administrator rights did not happen.
#[derive(Debug)]
pub enum ElevateError {
    /// The user declined.
    Cancelled,
    /// The process has administrator rights already.
    AlreadyElevated,
    /// The path of the running program is unknown.
    CurrentExeUnavailable(String),
    /// The operating system refused.
    Failed(String),
    /// This operating system does not offer it.
    Unsupported,
}

impl ElevateError {
    /// The text that is shown for the error.
    pub open spec fn text(self) -> Seq<char> {
        match self {
            ElevateError::Cancelled => "管理者権限での実行はキャンセルされました。"@,
            ElevateError::AlreadyElevated => "既に管理者権限で実行されています。"@,
            ElevateError::CurrentExeUnavailable(m) => {
                "実行ファイルの場所を特定できませんでした: "@ + m@
            },
            ElevateError::Failed(m) => "管理者権限での起動に失敗しました: "@ + m@,
            ElevateError::Unsupported => {
                "この OS では管理者権限への昇格に対応していません。"@
            },
        }
    }

    /// The text that is shown for the error.
    pub fn message(&self) -> (r: String)
        ensures
            r@ == self.text(),
    {
        match self {
            ElevateError::Cancelled => "管理者権限での実行はキャンセルされました。".to_owned(),
            ElevateError::AlreadyElevated => "既に管理者権限で実行されています。".to_owned(),
            ElevateError::CurrentExeUnavailable(m) => {
                "実行ファイルの場所を特定できませんでした: ".to_owned().concat(m.as_str())
            },
            ElevateError::Failed(m) => "管理者権限での起動に失敗しました: ".to_owned().concat(m.as_str()),
            ElevateError::Unsupported => {
                "この OS では管理者権限への昇格に対応していません。".to_owned()
            },
        }
    }
}

/// The result of starting again with administrator rights.
pub type ElevateResult = Result<(), ElevateError>;

/// One item that lies in the trash.
#[derive(Debug, PartialEq, Eq)]
pub struct TrashEntry {
    /// The name by which the trash knows the item.
    pub id: String,
    /// Where the item was before.
    pub original_path: FilePath,
    /// When it was moved there, in seconds since the epoch, where known.
    pub deleted_at_secs: Option<u64>,
    /// Its size in bytes, where known.
    pub size: Option<u64>,
}

/// What became of one item that was to be restored from the trash.
#[derive(Debug, PartialEq, Eq)]
pub enum RestoreItemOutcome {
    /// The item is back at its original path.
    Restored,
    /// The original path is taken, so the item stayed in the trash.
    SkippedCollision,
    /// The trash holds no such item any more.
    NotFound,
    /// Restoring failed.
    Failed {
        /// The text of the failure.
        message: String,
    },
}

/// The value of a [`TrashEntry`].
#[verifier::ext_equal]
pub struct TrashEntryView {
    pub id: Seq<char>,
    pub original_path: FilePathView,
    pub deleted_at_secs: Option<u64>,
    pub size: Option<u64>,
}

impl View for TrashEntry {
    type V = TrashEntryView;

    open spec fn view(&self) -> TrashEntryView {
        TrashEntryView {
            id: self.id@,
            original_path: self.original_path@,
            deleted_at_secs: self.deleted_at_secs,
            size: self.size,
        }
    }
}

impl Clone for TrashEntry {
    fn clone(&self) -> (r: TrashEntry)
        ensures
            r@ == self@,
    {
        TrashEntry {
            id: self.id.clone(),
            original_path: self.original_path.clone(),
            deleted_at_secs: self.deleted_at_secs,
            size: self.size,
        }
    }
}

impl Clone for RestoreItemOutcome {
    fn clone(&self) -> (r: RestoreItemOutcome)
        ensures
            r == *self,
    {
        match self {
            RestoreItemOutcome::Restored => RestoreItemOutcome::Restored,
            RestoreItemOutcome::SkippedCollision => RestoreItemOutcome::SkippedCollision,
            RestoreItemOutcome::NotFound => RestoreItemOutcome::NotFound,
            RestoreItemOutcome::Failed { message } => RestoreItemOutcome::Failed {
                message: message.clone(),
            },
        }
    }
}

/// What the library asks of the operating system.
pub trait Platform {
    /// Where `kind` is, as [`Platform::known_dir`] answers.
    ///
    /// This and the other spec functions describe an implementation to proofs.
    /// An implementation that no proof looks into leaves them as they are.
    open spec fn dir_of(&self, kind: KnownDir) -> Option<FilePathView> {
        arbitrary()
    }

    /// Whether deleting `path` takes administrator rights, as
    /// [`Platform::requires_admin`] answers.
    open spec fn admin(&self, path: FilePathView) -> bool {
        arbitrary()
    }

    /// Whether the process has administrator rights, as
    /// [`Platform::is_elevated`] answers.
    open spec fn elevated(&self) -> bool {
        arbitrary()
    }

    /// Where settings are kept, as [`Platform::config_dir`] answers.
    open spec fn settings_dir(&self) -> Option<FilePathView> {
        arbitrary()
    }

    /// [`Platform::is_file_in_use`] can give `answer` on `path`. The answer
    /// changes with what other processes do, so more than one can be given.
    open spec fn may_answer(&self, path: FilePathView, answer: Option<bool>) -> bool {
        true
    }

    /// [`Platform::list_trash`] can give `listing`.
    open spec fn may_list(&self, listing: Result<Vec<TrashEntry>, PlatformError>) -> bool {
        true
    }

    /// [`Platform::restore_from_trash`] can give `reports` when it is asked to
    /// restore the items `ids`.
    open spec fn may_report(
        &self,
        ids: Seq<Seq<char>>,
        reports: Seq<(String, RestoreItemOutcome)>,
    ) -> bool {
        true
    }

    /// Where `kind` is; `None` where it cannot be resolved.
    fn known_dir(&self, kind: KnownDir) -> (r: Option<FilePath>)
        ensures
            r is Some == self.dir_of(kind) is Some,
            r is Some ==> r->0@ == self.dir_of(kind)->0,
    ;

    /// Whether deleting `path` takes administrator rights.
    fn requires_admin(&self, path: &FilePath) -> (r: bool)
        ensures
            r == self.admin(path@),
    ;

    /// Whether the process has administrator rights. Where that cannot be
    /// told, the answer is `false`.
    fn is_elevated(&self) -> (r: bool)
        ensures
            r == self.elevated(),
    ;

    /// Where settings are kept; `None` where it cannot be resolved.
    fn config_dir(&self) -> (r: Option<FilePath>)
        ensures
            r is Some == self.settings_dir() is Some,
            r is Some ==> r->0@ == self.settings_dir()->0,
    ;

    /// Moves `path` to the trash.
    fn to_trash(&self, path: &FilePath) -> Result<(), PlatformError>;

    /// Starts the program again with administrator rights and the arguments
    /// `args`. After `Ok` the caller ends its own process soon.
    fn elevate(&self, args: &[String]) -> ElevateResult;

    /// Whether another process holds `path` open; `None` where that cannot be
    /// told.
    fn is_file_in_use(&self, path: &FilePath) -> (r: Option<bool>)
        ensures
            self.may_answer(path@, r),
    ;

    /// The items in the trash.
    fn list_trash(&self) -> (r: Result<Vec<TrashEntry>, PlatformError>)
        ensures
            self.may_list(r),
    ;

    /// Restores the items with the given ids; one outcome for each.
    fn restore_from_trash(&self, ids: &[String]) -> (r: Vec<(String, RestoreItemOutcome)>)
        ensures
            self.may_report(texts_of(ids@), r@),
    ;
}

/// Whether to start again with administrator rights.
///
/// `already_relaunched` marks a process that was started by such a restart, so
/// a platform on which rights never arrive is not restarted without end.
pub fn should_relaunch(
    admin_requested: bool,
    elevated: bool,
    already_relaunched: bool,
) -> (r: bool)
    ensures
        r == (admin_requested && !elevated && !already_relaunched),
{
    admin_requested && !elevated && !already_relaunched
}

} // verus!
