//! What a scan finds.

use crate::path::{FilePath, FilePathView};
use vstd::prelude::*;

verus! {

/// The place of an entry among files with the same content.
///
/// It informs only: being a duplicate does not make a file safe to delete.
#[derive(Debug, Clone, Copy, PartialEq, Eq, Structural)]
pub struct DuplicateInfo {
    /// The group, unique within one scan.
    pub group_id: u64,
    /// How many entries the group has, two at least.
    pub group_size: usize,
    /// The entry is the one to keep, the oldest of its group.
    pub is_primary: bool,
}

/// One candidate for deletion.
#[derive(Debug, PartialEq, Eq)]
pub struct ScanEntry {
    /// The id of the rule that found it.
    pub rule_id: String,
    /// Where it is.
    pub path: FilePath,
    /// Its size in bytes.
    pub size: u64,
    /// How many files it stands for.
    pub file_count: u64,
    /// When it was last modified, in nanoseconds since the epoch.
    pub modified: Option<i128>,
    /// How many days ago that was, when it was scanned.
    pub age_days: Option<u64>,
    /// Another process holds it open. Asked of single files only; `None` where
    /// the answer is not known.
    pub in_use: Option<bool>,
    /// Its place among duplicates, where they were looked for.
    pub duplicate: Option<DuplicateInfo>,
    /// Deleting it is recommended.
    pub recommended: bool,
    /// Why, or why not.
    pub reason: String,
    /// The user has selected it.
    pub selected: bool,
}

/// The value of a [`ScanEntry`].
#[verifier::ext_equal]
pub struct ScanEntryView {
    pub rule_id: Seq<char>,
    pub path: FilePathView,
    pub size: u64,
    pub file_count: u64,
    pub modified: Option<i128>,
    pub age_days: Option<u64>,
    pub in_use: Option<bool>,
    pub duplicate: Option<DuplicateInfo>,
    pub recommended: bool,
    pub reason: Seq<char>,
    pub selected: bool,
}

impl View for ScanEntry {
    type V = ScanEntryView;

    open spec fn view(&self) -> ScanEntryView {
        ScanEntryView {
            rule_id: self.rule_id@,
            path: self.path@,
            size: self.size,
            file_count: self.file_count,
            modified: self.modified,
            age_days: self.age_days,
            in_use: self.in_use,
            duplicate: self.duplicate,
            recommended: self.recommended,
            reason: self.reason@,
            selected: self.selected,
        }
    }
}

impl Clone for ScanEntry {
    fn clone(&self) -> (r: ScanEntry)
        ensures
            r@ == self@,
    {
        ScanEntry {
            rule_id: self.rule_id.clone(),
            path: self.path.clone(),
            size: self.size,
            file_count: self.file_count,
            modified: self.modified,
            age_days: self.age_days,
            in_use: self.in_use,
            duplicate: self.duplicate,
            recommended: self.recommended,
            reason: self.reason.clone(),
            selected: self.selected,
        }
    }
}

/// The values of a list of entries.
pub open spec fn entry_views(entries: Seq<ScanEntry>) -> Seq<ScanEntryView> {
    entries.map_values(|e: ScanEntry| e@)
}

} // verus!
