//! The platform of an operating system that is not supported.
//!
//! It resolves no directory and answers every question on the safe side.

use super::{
    ElevateError, ElevateResult, KnownDir, Platform, PlatformError, RestoreItemOutcome, TrashEntry,
};
use crate::path::{FilePath, FilePathView};
use vstd::prelude::*;

verus! {

/// The platform of an operating system that is not supported.
pub struct UnknownPlatform;

/// The text of a failed restore.
pub open spec fn restore_unsupported() -> Seq<char> {
    "この OS ではゴミ箱からの復元に対応していません。"@
}

impl UnknownPlatform {
    /// The platform.
    pub fn new() -> (r: UnknownPlatform)
        ensures
            r == UnknownPlatform,
    {
        UnknownPlatform
    }
}

impl Platform for UnknownPlatform {
    open spec fn dir_of(&self, kind: KnownDir) -> Option<FilePathView> {
        None
    }

    open spec fn admin(&self, path: FilePathView) -> bool {
        true
    }

    open spec fn elevated(&self) -> bool {
        false
    }

    open spec fn settings_dir(&self) -> Option<FilePathView> {
        None
    }

    open spec fn may_answer(&self, path: FilePathView, answer: Option<bool>) -> bool {
        answer is None
    }

    open spec fn may_list(&self, listing: Result<Vec<TrashEntry>, PlatformError>) -> bool {
        listing is Err && listing->Err_0 == PlatformError::Unsupported("list_trash")
    }

    open spec fn may_report(
        &self,
        ids: Seq<Seq<char>>,
        reports: Seq<(String, RestoreItemOutcome)>,
    ) -> bool {
        &&& reports.len() == ids.len()
        &&& forall|i: int|
            0 <= i < ids.len() ==> {
                &&& (#[trigger] reports[i]).0@ == ids[i]
                &&& reports[i].1 matches RestoreItemOutcome::Failed { message }
                &&& message@ == restore_unsupported()
            }
    }

    fn known_dir(&self, kind: KnownDir) -> (r: Option<FilePath>) {
        None
    }

    fn requires_admin(&self, path: &FilePath) -> (r: bool) {
        true
    }

    fn is_elevated(&self) -> (r: bool) {
        false
    }

    fn config_dir(&self) -> (r: Option<FilePath>) {
        None
    }

    fn to_trash(&self, path: &FilePath) -> (r: Result<(), PlatformError>)
        ensures
            r is Err,
            r->Err_0 == PlatformError::Unsupported("to_trash"),
    {
        Err(PlatformError::Unsupported("to_trash"))
    }

    fn elevate(&self, args: &[String]) -> (r: ElevateResult)
        ensures
            r is Err,
            r->Err_0 == ElevateError::Unsupported,
    {
        Err(ElevateError::Unsupported)
    }

    fn is_file_in_use(&self, path: &FilePath) -> (r: Option<bool>) {
        None
    }

    fn list_trash(&self) -> (r: Result<Vec<TrashEntry>, PlatformError>) {
        Err(PlatformError::Unsupported("list_trash"))
    }

    fn restore_from_trash(&self, ids: &[String]) -> (r: Vec<(String, RestoreItemOutcome)>) {
        let mut r: Vec<(String, RestoreItemOutcome)> = Vec::new();
        let mut i: usize = 0;
        while i < ids.len()
            invariant
                i <= ids@.len(),
                r@.len() == i,
                forall|j: int|
                    0 <= j < i ==> {
                        &&& (#[trigger] r@[j]).0 == ids@[j]
                        &&& r@[j].1 matches RestoreItemOutcome::Failed { message }
                        &&& message@ == restore_unsupported()
                    },
            decreases ids@.len() - i,
        {
            r.push(
                (
                    ids[i].clone(),
                    RestoreItemOutcome::Failed {
                        message: "この OS ではゴミ箱からの復元に対応していません。".to_owned(),
                    },
                ),
            );
            i = i + 1;
        }
        r
    }
}

} // verus!
