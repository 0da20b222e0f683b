//! The lines of the window that hold numbers or names.

use crate::format::{human_size, size_text};
use crate::history::History;
use crate::i18n::{pick, picked, Lang};
use crate::session::{
    Confirmation, OutcomeSummary, OutcomeSummaryView, RestoreSummary, RestoreSummaryView, Task,
    TaskView,
};
use crate::text::{decimal, push_decimal};
use crate::view::note_value;
use vstd::prelude::*;

verus! {

/// What is under way, in words.
pub open spec fn task_words(task: TaskView, lang: Lang) -> Option<Seq<char>> {
    match task {
        TaskView::Idle => None,
        TaskView::Scanning { rule_id, files_scanned } => Some(
            picked(lang, "走査中: "@, "Scanning: "@) + match rule_id {
                Some(id) => id,
                None => picked(lang, "準備中"@, "preparing"@),
            } + " … "@ + decimal(files_scanned as nat) + picked(lang, " 件"@, " items"@),
        ),
        TaskView::Deleting { done, total } => Some(
            picked(lang, "削除中: "@, "Deleting: "@) + decimal(done) + " / "@ + decimal(total)
                + picked(lang, " 件"@, " items"@),
        ),
        TaskView::Restoring => Some(picked(lang, "復元中…"@, "Restoring…"@)),
    }
}

/// What is under way, in words.
pub fn task_text(task: &Task, lang: Lang) -> (r: Option<String>)
    ensures
        note_value(r) == task_words(task@, lang),
{
    match task {
        Task::Idle => None,
        Task::Scanning { rule_id, files_scanned } => {
            let mut r = pick(lang, "走査中: ", "Scanning: ").to_owned();
            match rule_id {
                Some(id) => r.append(id.as_str()),
                None => r.append(pick(lang, "準備中", "preparing")),
            }
            r.append(" … ");
            push_decimal(&mut r, *files_scanned);
            r.append(pick(lang, " 件", " items"));
            Some(r)
        },
        Task::Deleting { done, total } => {
            let mut r = pick(lang, "削除中: ", "Deleting: ").to_owned();
            push_decimal(&mut r, *done as u64);
            r.append(" / ");
            push_decimal(&mut r, *total as u64);
            r.append(pick(lang, " 件", " items"));
            Some(r)
        },
        Task::Restoring => Some(pick(lang, "復元中…", "Restoring…").to_owned()),
    }
}

/// What is selected, in words.
pub open spec fn selection_words(item_count: nat, total_size: nat, lang: Lang) -> Seq<char> {
    picked(lang, "選択中: "@, "Selected: "@) + decimal(item_count) + picked(
        lang,
        " 件（"@,
        " items ("@,
    ) + size_text(total_size) + picked(lang, "）を解放"@, ") to free"@)
}

/// What is selected, in words.
pub fn selection_text(item_count: usize, total_size: u64, lang: Lang) -> (r: String)
    ensures
        r@ == selection_words(item_count as nat, total_size as nat, lang),
{
    let mut r = pick(lang, "選択中: ", "Selected: ").to_owned();
    push_decimal(&mut r, item_count as u64);
    r.append(pick(lang, " 件（", " items ("));
    r.append(human_size(total_size).as_str());
    r.append(pick(lang, "）を解放", ") to free"));
    r
}

/// How much is excluded, in words.
pub open spec fn excluded_words(count: nat, lang: Lang) -> Seq<char> {
    picked(lang, "除外: "@, "Excluded: "@) + decimal(count) + picked(
        lang,
        " 件（選択されていない・許可リスト外・要管理者権限など）"@,
        " items (not selected, outside the allowlist, requires administrator privileges, etc.)"@,
    )
}

/// How much is excluded, in words.
pub fn excluded_text(count: usize, lang: Lang) -> (r: String)
    ensures
        r@ == excluded_words(count as nat, lang),
{
    let mut r = pick(lang, "除外: ", "Excluded: ").to_owned();
    push_decimal(&mut r, count as u64);
    r.append(
        pick(
            lang,
            " 件（選択されていない・許可リスト外・要管理者権限など）",
            " items (not selected, outside the allowlist, requires administrator privileges, etc.)",
        ),
    );
    r
}

/// What came of a deletion, in words.
pub open spec fn summary_words(o: OutcomeSummaryView, lang: Lang) -> Seq<char> {
    if o.dry_run {
        picked(
            lang,
            "ドライランのため削除は行われていません。"@,
            "This was a dry run; nothing was deleted."@,
        )
    } else {
        match lang {
            Lang::Ja => "削除完了: 成功 "@ + decimal(o.deleted) + " 件、失敗 "@ + decimal(o.failed)
                + " 件、解放 "@ + size_text(o.freed_bytes),
            Lang::En => "Deletion complete: "@ + decimal(o.deleted) + " succeeded, "@ + decimal(
                o.failed,
            ) + " failed, "@ + size_text(o.freed_bytes) + " freed"@,
        }
    }
}

/// What came of a deletion, in words.
pub fn summary_text(o: &OutcomeSummary, lang: Lang) -> (r: String)
    ensures
        r@ == summary_words(o@, lang),
{
    if o.dry_run {
        return pick(
            lang,
            "ドライランのため削除は行われていません。",
            "This was a dry run; nothing was deleted.",
        ).to_owned();
    }
    match lang {
        Lang::Ja => {
            let mut r = "削除完了: 成功 ".to_owned();
            push_decimal(&mut r, o.deleted as u64);
            r.append(" 件、失敗 ");
            push_decimal(&mut r, o.failed as u64);
            r.append(" 件、解放 ");
            r.append(human_size(o.freed_bytes).as_str());
            r
        },
        Lang::En => {
            let mut r = "Deletion complete: ".to_owned();
            push_decimal(&mut r, o.deleted as u64);
            r.append(" succeeded, ");
            push_decimal(&mut r, o.failed as u64);
            r.append(" failed, ");
            r.append(human_size(o.freed_bytes).as_str());
            r.append(" freed");
            r
        },
    }
}

/// What came of restoring, in words.
pub open spec fn restored_words(o: RestoreSummaryView, lang: Lang) -> Seq<char> {
    match lang {
        Lang::Ja => "直近の復元: 成功 "@ + decimal(o.restored) + " 件 / スキップ "@ + decimal(
            o.skipped,
        ) + " 件 / 対象消失 "@ + decimal(o.not_found) + " 件 / 失敗 "@ + decimal(o.failed) + " 件"@,
        Lang::En => "Last restore: "@ + decimal(o.restored) + " succeeded / "@ + decimal(o.skipped)
            + " skipped / "@ + decimal(o.not_found) + " not found / "@ + decimal(o.failed)
            + " failed"@,
    }
}

/// What came of restoring, in words.
pub fn restored_text(o: &RestoreSummary, lang: Lang) -> (r: String)
    ensures
        r@ == restored_words(o@, lang),
{
    let mut r = pick(lang, "直近の復元: 成功 ", "Last restore: ").to_owned();
    push_decimal(&mut r, o.restored as u64);
    r.append(pick(lang, " 件 / スキップ ", " succeeded / "));
    push_decimal(&mut r, o.skipped as u64);
    r.append(pick(lang, " 件 / 対象消失 ", " skipped / "));
    push_decimal(&mut r, o.not_found as u64);
    r.append(pick(lang, " 件 / 失敗 ", " not found / "));
    push_decimal(&mut r, o.failed as u64);
    r.append(pick(lang, " 件", " failed"));
    r
}

/// The head of a group of failures.
pub open spec fn failures_words(message: Seq<char>, count: nat, lang: Lang) -> Seq<char> {
    match lang {
        Lang::Ja => "失敗: "@ + message + "（"@ + decimal(count) + "件）"@,
        Lang::En => "Failed: "@ + message + " ("@ + decimal(count) + " items)"@,
    }
}

/// The head of a group of failures.
pub fn failures_text(message: &str, count: usize, lang: Lang) -> (r: String)
    ensures
        r@ == failures_words(message@, count as nat, lang),
{
    let mut r = pick(lang, "失敗: ", "Failed: ").to_owned();
    r.append(message);
    r.append(pick(lang, "（", " ("));
    push_decimal(&mut r, count as u64);
    r.append(pick(lang, "件）", " items)"));
    r
}

/// What the user is asked to confirm, in words.
pub open spec fn confirm_words(c: Confirmation, lang: Lang) -> Seq<char> {
    let count = decimal(c.item_count as nat);
    let size = size_text(c.total_size as nat);
    match lang {
        Lang::Ja => count + " 件（"@ + size + "）を"@ + (if c.is_permanent {
            "完全に削除します（ゴミ箱を経由せず、復元できません）"@
        } else if c.is_dry_run {
            "プレビューします（実際には削除しません）"@
        } else {
            "ゴミ箱へ送ります"@
        }) + "。"@,
        Lang::En => if c.is_permanent {
            "Permanently delete "@ + count + " items ("@ + size
                + ") (bypassing the Recycle Bin; cannot be restored)."@
        } else if c.is_dry_run {
            "Preview "@ + count + " items ("@ + size + ") (nothing will actually be deleted)."@
        } else {
            "Send "@ + count + " items ("@ + size + ") to the Recycle Bin."@
        },
    }
}

/// What the user is asked to confirm, in words.
pub fn confirm_text(c: &Confirmation, lang: Lang) -> (r: String)
    ensures
        r@ == confirm_words(*c, lang),
{
    match lang {
        Lang::Ja => {
            let mut r = String::new();
            push_decimal(&mut r, c.item_count as u64);
            r.append(" 件（");
            r.append(human_size(c.total_size).as_str());
            r.append("）を");
            if c.is_permanent {
                r.append("完全に削除します（ゴミ箱を経由せず、復元できません）");
            } else if c.is_dry_run {
                r.append("プレビューします（実際には削除しません）");
            } else {
                r.append("ゴミ箱へ送ります");
            }
            r.append("。");
            assert(r@ =~= confirm_words(*c, lang));
            r
        },
        Lang::En => {
            let mut r = if c.is_permanent {
                "Permanently delete ".to_owned()
            } else if c.is_dry_run {
                "Preview ".to_owned()
            } else {
                "Send ".to_owned()
            };
            push_decimal(&mut r, c.item_count as u64);
            r.append(" items (");
            r.append(human_size(c.total_size).as_str());
            if c.is_permanent {
                r.append(") (bypassing the Recycle Bin; cannot be restored).");
            } else if c.is_dry_run {
                r.append(") (nothing will actually be deleted).");
            } else {
                r.append(") to the Recycle Bin.");
            }
            r
        },
    }
}

/// What has to be typed to delete for good, in words.
pub open spec fn type_count_words(item_count: nat, lang: Lang) -> Seq<char> {
    picked(lang, "続行するには対象件数「"@, "To proceed, type the item count \""@) + decimal(
        item_count,
    ) + picked(lang, "」を入力してください。"@, "\"."@)
}

/// What has to be typed to delete for good, in words.
pub fn type_count_text(item_count: usize, lang: Lang) -> (r: String)
    ensures
        r@ == type_count_words(item_count as nat, lang),
{
    let mut r = pick(
        lang,
        "続行するには対象件数「",
        "To proceed, type the item count \"",
    ).to_owned();
    push_decimal(&mut r, item_count as u64);
    r.append(pick(lang, "」を入力してください。", "\"."));
    r
}

/// What undoing a run does, in words.
pub open spec fn undo_words(run_id: nat, lang: Lang) -> Seq<char> {
    picked(lang, "実行 "@, "Restores items deleted in run "@) + decimal(run_id) + picked(
        lang,
        " で削除した項目のうち、ゴミ箱に残っているものを元の場所へ復元します。"@,
        " that are still in the Recycle Bin to their original location."@,
    )
}

/// What undoing a run does, in words.
pub fn undo_text(run_id: u64, lang: Lang) -> (r: String)
    ensures
        r@ == undo_words(run_id as nat, lang),
{
    let mut r = pick(lang, "実行 ", "Restores items deleted in run ").to_owned();
    push_decimal(&mut r, run_id);
    r.append(
        pick(
            lang,
            " で削除した項目のうち、ゴミ箱に残っているものを元の場所へ復元します。",
            " that are still in the Recycle Bin to their original location.",
        ),
    );
    r
}

/// What all runs freed, in words.
pub open spec fn freed_words(history: History, lang: Lang) -> Seq<char> {
    match lang {
        Lang::Ja => "累計 "@ + size_text(history.freed()) + " を解放（"@ + decimal(
            history.entries@.len(),
        ) + " 回）"@,
        Lang::En => size_text(history.freed()) + " freed in total ("@ + decimal(
            history.entries@.len(),
        ) + " runs)"@,
    }
}

/// What all runs freed, in words.
pub fn freed_text(history: &History, lang: Lang) -> (r: String)
    requires
        history.freed() <= u64::MAX,
    ensures
        r@ == freed_words(*history, lang),
{
    let mut r = pick(lang, "累計 ", "").to_owned();
    proof {
        reveal_strlit("");
        assert(""@ + size_text(history.freed()) =~= size_text(history.freed()));
    }
    r.append(human_size(history.total_freed_bytes()).as_str());
    r.append(pick(lang, " を解放（", " freed in total ("));
    push_decimal(&mut r, history.run_count() as u64);
    r.append(pick(lang, " 回）", " runs)"));
    r
}

// ---- What the lines say ----

/// Something is said to be under way if and only if it is.
pub proof fn when_work_is_told(task: TaskView, lang: Lang)
    ensures
        task_words(task, lang) is Some <==> task !is Idle,
        task matches TaskView::Deleting { done, total } ==> task_words(task, Lang::En) == Some(
            "Deleting: "@ + decimal(done) + " / "@ + decimal(total) + " items"@,
        ) && task_words(task, Lang::Ja) == Some(
            "削除中: "@ + decimal(done) + " / "@ + decimal(total) + " 件"@,
        ),
{
}

/// Before a deletion the user is told how many items there are and how large they
/// are, and whether they go for good, are only previewed, or go to the trash.
pub proof fn what_is_asked_before_a_deletion(c: Confirmation)
    ensures
        ({
            let count = decimal(c.item_count as nat);
            let size = size_text(c.total_size as nat);
            let ja = confirm_words(c, Lang::Ja);
            let en = confirm_words(c, Lang::En);
            &&& c.is_permanent ==> ja == count + " 件（"@ + size + "）を"@
                + "完全に削除します（ゴミ箱を経由せず、復元できません）"@ + "。"@
            &&& c.is_permanent ==> en == "Permanently delete "@ + count + " items ("@ + size
                + ") (bypassing the Recycle Bin; cannot be restored)."@
            &&& !c.is_permanent && c.is_dry_run ==> ja == count + " 件（"@ + size + "）を"@
                + "プレビューします（実際には削除しません）"@ + "。"@
            &&& !c.is_permanent && c.is_dry_run ==> en == "Preview "@ + count + " items ("@ + size
                + ") (nothing will actually be deleted)."@
            &&& !c.is_permanent && !c.is_dry_run ==> ja == count + " 件（"@ + size + "）を"@
                + "ゴミ箱へ送ります"@ + "。"@
            &&& !c.is_permanent && !c.is_dry_run ==> en == "Send "@ + count + " items ("@ + size
                + ") to the Recycle Bin."@
        }),
{
}

/// After a dry run it is said that nothing was deleted; after any other run how
/// many items were, how many failed, and what was freed.
pub proof fn what_is_said_after_a_deletion(o: OutcomeSummaryView)
    ensures
        o.dry_run ==> summary_words(o, Lang::Ja) == "ドライランのため削除は行われていません。"@
            && summary_words(o, Lang::En) == "This was a dry run; nothing was deleted."@,
        !o.dry_run ==> summary_words(o, Lang::Ja) == "削除完了: 成功 "@ + decimal(o.deleted)
            + " 件、失敗 "@ + decimal(o.failed) + " 件、解放 "@ + size_text(o.freed_bytes),
        !o.dry_run ==> summary_words(o, Lang::En) == "Deletion complete: "@ + decimal(o.deleted)
            + " succeeded, "@ + decimal(o.failed) + " failed, "@ + size_text(o.freed_bytes)
            + " freed"@,
{
}

} // verus!
