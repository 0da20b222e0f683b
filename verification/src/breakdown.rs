//! Where the space goes: by rule and by size.

use crate::delete::{item_views, DeletePlan, PlannedDeletionView};
use crate::entry::{entry_views, ScanEntry, ScanEntryView};
use crate::i18n::Lang;
use crate::seqs::{total, total_push, total_take};
use crate::text::{is_text_before, text_before};
use vstd::prelude::*;

verus! {

/// One item to be counted.
#[derive(Debug, PartialEq, Eq)]
pub struct BreakdownItem {
    /// The id of the rule.
    pub rule_id: String,
    /// The size in bytes.
    pub size: u64,
    /// The number of files.
    pub file_count: u64,
}

/// The value of a [`BreakdownItem`].
#[verifier::ext_equal]
pub struct BreakdownItemView {
    pub rule_id: Seq<char>,
    pub size: u64,
    pub file_count: u64,
}

impl View for BreakdownItem {
    type V = BreakdownItemView;

    open spec fn view(&self) -> BreakdownItemView {
        BreakdownItemView {
            rule_id: self.rule_id@,
            size: self.size,
            file_count: self.file_count,
        }
    }
}

/// The values of a list of items.
pub open spec fn breakdown_views(items: Seq<BreakdownItem>) -> Seq<BreakdownItemView> {
    items.map_values(|i: BreakdownItem| i@)
}

/// What one rule accounts for.
#[derive(Debug, PartialEq, Eq)]
pub struct CategoryBreakdown {
    /// The id of the rule.
    pub rule_id: String,
    /// The number of items.
    pub item_count: usize,
    /// The number of files.
    pub file_count: u64,
    /// The size in bytes.
    pub total_size: u64,
}

/// The value of a [`CategoryBreakdown`].
#[verifier::ext_equal]
pub struct CategoryView {
    pub rule_id: Seq<char>,
    pub item_count: nat,
    pub file_count: nat,
    pub total_size: nat,
}

impl View for CategoryBreakdown {
    type V = CategoryView;

    open spec fn view(&self) -> CategoryView {
        CategoryView {
            rule_id: self.rule_id@,
            item_count: self.item_count as nat,
            file_count: self.file_count as nat,
            total_size: self.total_size as nat,
        }
    }
}

impl Clone for CategoryBreakdown {
    fn clone(&self) -> (r: CategoryBreakdown)
        ensures
            r@ == self@,
    {
        CategoryBreakdown {
            rule_id: self.rule_id.clone(),
            item_count: self.item_count,
            file_count: self.file_count,
            total_size: self.total_size,
        }
    }
}

/// The values of a list of categories.
pub open spec fn category_views(categories: Seq<CategoryBreakdown>) -> Seq<CategoryView> {
    categories.map_values(|c: CategoryBreakdown| c@)
}

/// A range of sizes. The lower bound belongs to it, the upper bound does not.
#[derive(Debug, Clone, Copy, PartialEq, Eq, Structural)]
pub enum SizeBucket {
    /// Below one mebibyte.
    UnderMib,
    /// From one to ten mebibytes.
    Mib1To10,
    /// From ten to a hundred mebibytes.
    Mib10To100,
    /// From a hundred mebibytes to a gibibyte.
    Mib100ToGib,
    /// From one gibibyte.
    OverGib,
}

/// The bytes of one mebibyte.
pub const MIB: u64 = 1_048_576;

/// The bytes of one gibibyte.
pub const GIB: u64 = 1_073_741_824;

impl SizeBucket {
    /// The words that are shown for the range in Japanese.
    pub open spec fn words(self) -> Seq<char> {
        match self {
            SizeBucket::UnderMib => "1MB未満"@,
            SizeBucket::Mib1To10 => "1MB〜10MB"@,
            SizeBucket::Mib10To100 => "10MB〜100MB"@,
            SizeBucket::Mib100ToGib => "100MB〜1GB"@,
            SizeBucket::OverGib => "1GB以上"@,
        }
    }

    /// The range has `size` in it.
    pub open spec fn holds(self, size: u64) -> bool {
        match self {
            SizeBucket::UnderMib => size < MIB,
            SizeBucket::Mib1To10 => MIB <= size < 10 * MIB,
            SizeBucket::Mib10To100 => 10 * MIB <= size < 100 * MIB,
            SizeBucket::Mib100ToGib => 100 * MIB <= size < GIB,
            SizeBucket::OverGib => GIB <= size,
        }
    }

    /// The ranges in the order in which they are shown.
    pub open spec fn in_order() -> Seq<SizeBucket> {
        seq![
            SizeBucket::UnderMib,
            SizeBucket::Mib1To10,
            SizeBucket::Mib10To100,
            SizeBucket::Mib100ToGib,
            SizeBucket::OverGib,
        ]
    }

    /// The words that are shown for the range in a language.
    pub open spec fn words_in(self, lang: Lang) -> Seq<char> {
        match lang {
            Lang::Ja => self.words(),
            Lang::En => match self {
                SizeBucket::UnderMib => "Under 1MB"@,
                SizeBucket::Mib1To10 => "1MB to 10MB"@,
                SizeBucket::Mib10To100 => "10MB to 100MB"@,
                SizeBucket::Mib100ToGib => "100MB to 1GB"@,
                SizeBucket::OverGib => "1GB or more"@,
            },
        }
    }

    /// The words that are shown for the range in a language.
    pub fn label_in(&self, lang: Lang) -> (r: &'static str)
        ensures
            r@ == self.words_in(lang),
    {
        match lang {
            Lang::Ja => self.label(),
            Lang::En => match self {
                SizeBucket::UnderMib => "Under 1MB",
                SizeBucket::Mib1To10 => "1MB to 10MB",
                SizeBucket::Mib10To100 => "10MB to 100MB",
                SizeBucket::Mib100ToGib => "100MB to 1GB",
                SizeBucket::OverGib => "1GB or more",
            },
        }
    }

    /// The words that are shown for the range in Japanese.
    pub fn label(&self) -> (r: &'static str)
        ensures
            r@ == self.words(),
    {
        match self {
            SizeBucket::UnderMib => "1MB未満",
            SizeBucket::Mib1To10 => "1MB〜10MB",
            SizeBucket::Mib10To100 => "10MB〜100MB",
            SizeBucket::Mib100ToGib => "100MB〜1GB",
            SizeBucket::OverGib => "1GB以上",
        }
    }

    /// The ranges in the order in which they are shown.
    pub fn all() -> (r: [SizeBucket; 5])
        ensures
            r@ == SizeBucket::in_order(),
    {
        let r = [
            SizeBucket::UnderMib,
            SizeBucket::Mib1To10,
            SizeBucket::Mib10To100,
            SizeBucket::Mib100ToGib,
            SizeBucket::OverGib,
        ];
        assert(r@ =~= SizeBucket::in_order());
        r
    }

    /// The range that has `size` in it.
    pub fn for_size(size: u64) -> (r: SizeBucket)
        ensures
            r.holds(size),
            forall|b: SizeBucket| #[trigger] b.holds(size) ==> b == r,
    {
        if size < MIB {
            SizeBucket::UnderMib
        } else if size < 10 * MIB {
            SizeBucket::Mib1To10
        } else if size < 100 * MIB {
            SizeBucket::Mib10To100
        } else if size < GIB {
            SizeBucket::Mib100ToGib
        } else {
            SizeBucket::OverGib
        }
    }
}

/// What one range of sizes accounts for.
#[derive(Debug, Clone, Copy, PartialEq, Eq, Structural)]
pub struct BucketBreakdown {
    /// The range.
    pub bucket: SizeBucket,
    /// The number of items.
    pub item_count: usize,
    /// The size in bytes.
    pub total_size: u64,
}

/// The selected entry as an item.
pub open spec fn selected_item() -> spec_fn(ScanEntryView) -> Option<BreakdownItemView> {
    |e: ScanEntryView|
        if e.selected {
            Some(
                BreakdownItemView {
                    rule_id: e.rule_id,
                    size: e.size,
                    file_count: e.file_count,
                },
            )
        } else {
            None
        }
}

/// A planned deletion as an item.
pub open spec fn planned_item() -> spec_fn(PlannedDeletionView) -> BreakdownItemView {
    |i: PlannedDeletionView|
        BreakdownItemView { rule_id: i.rule_id, size: i.size, file_count: i.file_count }
}

/// The selected entries as items.
pub fn from_selected_entries(entries: &[ScanEntry]) -> (r: Vec<BreakdownItem>)
    ensures
        breakdown_views(r@) == entry_views(entries@).filter_map(selected_item()),
{
    let ghost all = entry_views(entries@);
    let mut r: Vec<BreakdownItem> = Vec::new();
    let mut i: usize = 0;
    assert(breakdown_views(r@) =~= all.take(0).filter_map(selected_item()));
    while i < entries.len()
        invariant
            i <= entries@.len(),
            all == entry_views(entries@),
            breakdown_views(r@) == all.take(i as int).filter_map(selected_item()),
        decreases entries@.len() - i,
    {
        let entry = &entries[i];
        let ghost before = r@;
        proof {
            all.lemma_filter_map_take_succ(selected_item(), i as int);
            assert(all[i as int] == entry@);
        }
        if entry.selected {
            let item = BreakdownItem {
                rule_id: entry.rule_id.clone(),
                size: entry.size,
                file_count: entry.file_count,
            };
            r.push(item);
            assert(breakdown_views(r@) =~= breakdown_views(before) + seq![item@]);
        }
        assert(breakdown_views(r@) =~= all.take(i + 1).filter_map(selected_item()));
        i = i + 1;
    }
    assert(all.take(i as int) =~= all);
    r
}

/// What a plan deletes, as items.
pub fn from_plan(plan: &DeletePlan) -> (r: Vec<BreakdownItem>)
    ensures
        breakdown_views(r@) == plan@.items.map_values(planned_item()),
{
    let items = plan.items();
    let mut r: Vec<BreakdownItem> = Vec::new();
    let mut i: usize = 0;
    while i < items.len()
        invariant
            i <= items@.len(),
            plan@.items == item_views(items@),
            breakdown_views(r@) == plan@.items.take(i as int).map_values(planned_item()),
        decreases items@.len() - i,
    {
        let ghost before = r@;
        let item = BreakdownItem {
            rule_id: items[i].rule_id.clone(),
            size: items[i].size,
            file_count: items[i].file_count,
        };
        r.push(item);
        assert(plan@.items[i as int] == items@[i as int]@);
        assert(breakdown_views(r@) =~= breakdown_views(before).push(item@));
        assert(plan@.items.take(i + 1) =~= plan@.items.take(i as int).push(plan@.items[i as int]));
        i = i + 1;
        assert(breakdown_views(r@) =~= plan@.items.take(i as int).map_values(planned_item()));
    }
    assert(plan@.items.take(i as int) =~= plan@.items);
    r
}

/// The size of an item.
pub open spec fn size_of_item() -> spec_fn(BreakdownItemView) -> nat {
    |i: BreakdownItemView| i.size as nat
}

/// The number of files of an item.
pub open spec fn files_of_item() -> spec_fn(BreakdownItemView) -> nat {
    |i: BreakdownItemView| i.file_count as nat
}

/// The sums over the items can be counted.
pub open spec fn are_countable(items: Seq<BreakdownItemView>) -> bool {
    total(items, size_of_item()) <= u64::MAX && total(items, files_of_item()) <= u64::MAX
}

/// One for an item of the rule `id`.
pub open spec fn one_of(id: Seq<char>) -> spec_fn(BreakdownItemView) -> nat {
    |i: BreakdownItemView|
        if i.rule_id == id {
            1nat
        } else {
            0nat
        }
}

/// The number of files of an item of the rule `id`.
pub open spec fn files_of(id: Seq<char>) -> spec_fn(BreakdownItemView) -> nat {
    |i: BreakdownItemView|
        if i.rule_id == id {
            i.file_count as nat
        } else {
            0nat
        }
}

/// The size of an item of the rule `id`.
pub open spec fn size_of(id: Seq<char>) -> spec_fn(BreakdownItemView) -> nat {
    |i: BreakdownItemView|
        if i.rule_id == id {
            i.size as nat
        } else {
            0nat
        }
}

/// What the rule `id` accounts for among `items`.
pub open spec fn category(items: Seq<BreakdownItemView>, id: Seq<char>) -> CategoryView {
    CategoryView {
        rule_id: id,
        item_count: total(items, one_of(id)),
        file_count: total(items, files_of(id)),
        total_size: total(items, size_of(id)),
    }
}

/// An item of the rule `id` is among `items`.
pub open spec fn occurs(items: Seq<BreakdownItemView>, id: Seq<char>) -> bool {
    exists|i: int| 0 <= i < items.len() && (#[trigger] items[i]).rule_id == id
}

/// A category with the rule `id` is among `categories`.
pub open spec fn is_listed(categories: Seq<CategoryView>, id: Seq<char>) -> bool {
    exists|k: int| 0 <= k < categories.len() && (#[trigger] categories[k]).rule_id == id
}

/// `a` is shown before `b`: the larger first, and by rule id where two are
/// equally large.
pub open spec fn shown_before(a: CategoryView, b: CategoryView) -> bool {
    a.total_size > b.total_size || (a.total_size == b.total_size && text_before(
        a.rule_id,
        b.rule_id,
    ))
}

/// `categories` are what the rules account for among `items`, each rule that
/// occurs once.
pub open spec fn are_categories(
    items: Seq<BreakdownItemView>,
    categories: Seq<CategoryView>,
) -> bool {
    &&& forall|k: int|
        0 <= k < categories.len() ==> {
            &&& (#[trigger] categories[k]) == category(items, categories[k].rule_id)
            &&& occurs(items, categories[k].rule_id)
        }
    &&& forall|i: int| 0 <= i < items.len() ==> is_listed(categories, (#[trigger] items[i]).rule_id)
    &&& forall|j: int, k: int|
        0 <= j < k < categories.len() ==> (#[trigger] categories[j]).rule_id != (
        #[trigger] categories[k]).rule_id
}

/// `categories` are in the order in which they are shown.
pub open spec fn in_shown_order(categories: Seq<CategoryView>) -> bool {
    forall|j: int, k: int|
        0 <= j < k < categories.len() ==> shown_before(
            #[trigger] categories[j],
            #[trigger] categories[k],
        )
}

/// One more item changes what its own rule accounts for, and nothing else.
proof fn category_push(items: Seq<BreakdownItemView>, item: BreakdownItemView, id: Seq<char>)
    ensures
        category(items.push(item), id) == (if item.rule_id == id {
            CategoryView {
                rule_id: id,
                item_count: category(items, id).item_count + 1,
                file_count: category(items, id).file_count + item.file_count as nat,
                total_size: category(items, id).total_size + item.size as nat,
            }
        } else {
            category(items, id)
        }),
{
    total_push(items, item, one_of(id));
    total_push(items, item, files_of(id));
    total_push(items, item, size_of(id));
}

proof fn category_is_bounded(items: Seq<BreakdownItemView>, id: Seq<char>)
    ensures
        category(items, id).item_count <= items.len(),
        category(items, id).file_count <= total(items, files_of_item()),
        category(items, id).total_size <= total(items, size_of_item()),
    decreases items.len(),
{
    if items.len() > 0 {
        category_is_bounded(items.drop_last(), id);
    }
}

proof fn absent_category_is_zero(items: Seq<BreakdownItemView>, id: Seq<char>)
    requires
        !occurs(items, id),
    ensures
        category(items, id) == (CategoryView {
            rule_id: id,
            item_count: 0,
            file_count: 0,
            total_size: 0,
        }),
    decreases items.len(),
{
    if items.len() > 0 {
        let front = items.drop_last();
        assert(items[items.len() - 1].rule_id != id);
        assert(!occurs(front, id)) by {
            if occurs(front, id) {
                let i = choose|i: int| 0 <= i < front.len() && (#[trigger] front[i]).rule_id == id;
                assert(items[i].rule_id == id);
            }
        }
        absent_category_is_zero(front, id);
    }
}

/// What the rules account for, in the order in which their items first occur.
fn group(items: &[BreakdownItem]) -> (r: Vec<CategoryBreakdown>)
    requires
        are_countable(breakdown_views(items@)),
    ensures
        are_categories(breakdown_views(items@), category_views(r@)),
{
    let ghost all = breakdown_views(items@);
    let mut r: Vec<CategoryBreakdown> = Vec::new();
    let mut i: usize = 0;
    while i < items.len()
        invariant
            i <= items@.len(),
            all == breakdown_views(items@),
            are_countable(all),
            are_categories(all.take(i as int), category_views(r@)),
        decreases items@.len() - i,
    {
        let item = &items[i];
        let ghost seen = all.take(i as int);
        let ghost now = all.take(i + 1);
        let ghost before = category_views(r@);
        assert(now =~= seen.push(item@));
        let mut k: usize = 0;
        while k < r.len() && !crate::text::same_text(r[k].rule_id.as_str(), item.rule_id.as_str())
            invariant
                k <= r@.len(),
                before == category_views(r@),
                forall|j: int| 0 <= j < k ==> (#[trigger] before[j]).rule_id != item@.rule_id,
            decreases r@.len() - k,
        {
            assert(before[k as int] == r@[k as int]@);
            k = k + 1;
        }
        proof {
            category_push(seen, item@, item@.rule_id);
            category_is_bounded(now, item@.rule_id);
            total_take(all, i as int, size_of_item());
            total_take(all, i as int, files_of_item());
        }
        if k < r.len() {
            assert(before[k as int] == r@[k as int]@);
            assert(before[k as int] == category(seen, item@.rule_id));
            let updated = CategoryBreakdown {
                rule_id: item.rule_id.clone(),
                item_count: r[k].item_count + 1,
                file_count: r[k].file_count + item.file_count,
                total_size: r[k].total_size + item.size,
            };
            r.set(k, updated);
            assert(category_views(r@) =~= before.update(k as int, category(now, item@.rule_id)));
        } else {
            proof {
                assert(!occurs(seen, item@.rule_id)) by {
                    if occurs(seen, item@.rule_id) {
                        let j = choose|j: int|
                            0 <= j < seen.len() && (#[trigger] seen[j]).rule_id == item@.rule_id;
                        assert(is_listed(before, seen[j].rule_id));
                    }
                }
                absent_category_is_zero(seen, item@.rule_id);
            }
            let added = CategoryBreakdown {
                rule_id: item.rule_id.clone(),
                item_count: 1,
                file_count: item.file_count,
                total_size: item.size,
            };
            r.push(added);
            assert(category_views(r@) =~= before.push(category(now, item@.rule_id)));
        }
        let ghost after = category_views(r@);
        proof {
            assert(after[k as int] == category(now, item@.rule_id));
            assert(now[i as int].rule_id == item@.rule_id);
            assert forall|j: int| 0 <= j < after.len() implies {
                &&& (#[trigger] after[j]) == category(now, after[j].rule_id)
                &&& occurs(now, after[j].rule_id)
            } by {
                if j != k {
                    assert(after[j] == before[j]);
                    assert(occurs(seen, before[j].rule_id));
                    let x = choose|x: int|
                        0 <= x < seen.len() && (#[trigger] seen[x]).rule_id == before[j].rule_id;
                    assert(now[x].rule_id == before[j].rule_id);
                    category_push(seen, item@, before[j].rule_id);
                }
            }
            assert forall|x: int| 0 <= x < now.len() implies is_listed(
                after,
                (#[trigger] now[x]).rule_id,
            ) by {
                if x < i {
                    assert(now[x] == seen[x]);
                    assert(is_listed(before, seen[x].rule_id));
                    let j = choose|j: int|
                        0 <= j < before.len() && (#[trigger] before[j]).rule_id == seen[x].rule_id;
                    assert(after[j].rule_id == before[j].rule_id);
                } else {
                    assert(after[k as int].rule_id == now[x].rule_id);
                }
            }
            assert forall|a: int, b: int| 0 <= a < b < after.len() implies (
            #[trigger] after[a]).rule_id != (#[trigger] after[b]).rule_id by {
                if b < before.len() {
                    assert(before[a].rule_id != before[b].rule_id);
                } else {
                    assert(after[a] == before[a]);
                }
            }
        }
        i = i + 1;
    }
    assert(all.take(i as int) =~= all);
    r
}

fn is_shown_before(a: &CategoryBreakdown, b: &CategoryBreakdown) -> (r: bool)
    ensures
        r == shown_before(a@, b@),
{
    a.total_size > b.total_size || (a.total_size == b.total_size && is_text_before(
        a.rule_id.as_str(),
        b.rule_id.as_str(),
    ))
}

proof fn shown_before_total(a: CategoryView, b: CategoryView)
    requires
        a.rule_id != b.rule_id,
        !shown_before(a, b),
    ensures
        shown_before(b, a),
{
    crate::text::text_before_total(a.rule_id, b.rule_id);
}

proof fn shown_before_transitive(a: CategoryView, b: CategoryView, c: CategoryView)
    requires
        shown_before(a, b),
        shown_before(b, c),
    ensures
        shown_before(a, c),
{
    if a.total_size == b.total_size && b.total_size == c.total_size {
        crate::text::text_before_transitive(a.rule_id, b.rule_id, c.rule_id);
    }
}

/// What the rules account for: one entry for each rule that occurs, the largest
/// first, and by rule id where two are equally large.
pub fn by_rule(items: &[BreakdownItem]) -> (r: Vec<CategoryBreakdown>)
    requires
        are_countable(breakdown_views(items@)),
    ensures
        are_categories(breakdown_views(items@), category_views(r@)),
        in_shown_order(category_views(r@)),
{
    let groups = group(items);
    let ghost given = category_views(groups@);
    let mut r: Vec<CategoryBreakdown> = Vec::new();
    let mut i: usize = 0;
    while i < groups.len()
        invariant
            i <= groups@.len(),
            given == category_views(groups@),
            are_categories(breakdown_views(items@), given),
            in_shown_order(category_views(r@)),
            forall|k: int|
                0 <= k < r@.len() ==> given.take(i as int).contains(
                    #[trigger] category_views(r@)[k],
                ),
            forall|k: int| 0 <= k < i ==> category_views(r@).contains(#[trigger] given[k]),
        decreases groups@.len() - i,
    {
        let new = groups[i].clone();
        let ghost before = category_views(r@);
        assert(new@ == given[i as int]);
        let mut p: usize = 0;
        while p < r.len() && !is_shown_before(&new, &r[p])
            invariant
                p <= r@.len(),
                before == category_views(r@),
                forall|j: int| 0 <= j < p ==> !shown_before(new@, #[trigger] before[j]),
            decreases r@.len() - p,
        {
            assert(before[p as int] == r@[p as int]@);
            p = p + 1;
        }
        proof {
            if p < r@.len() {
                assert(before[p as int] == r@[p as int]@);
            }
            assert forall|j: int| 0 <= j < before.len() implies (#[trigger] before[j]).rule_id
                != new@.rule_id by {
                assert(given.take(i as int).contains(before[j]));
                let x = choose|x: int| 0 <= x < i && given.take(i as int)[x] == before[j];
                assert(given[x].rule_id != given[i as int].rule_id);
            }
        }
        r.insert(p, new);
        let ghost after = category_views(r@);
        assert(after =~= before.insert(p as int, given[i as int]));
        proof {
            assert forall|a: int, b: int| 0 <= a < b < after.len() implies shown_before(
                #[trigger] after[a],
                #[trigger] after[b],
            ) by {
                if b < p {
                    assert(shown_before(before[a], before[b]));
                } else if b == p {
                    shown_before_total(given[i as int], before[a]);
                } else if a < p {
                    assert(shown_before(before[a], before[b - 1]));
                } else if a == p {
                    if b - 1 > p {
                        assert(shown_before(before[p as int], before[b - 1]));
                        shown_before_transitive(given[i as int], before[p as int], before[b - 1]);
                    }
                } else {
                    assert(shown_before(before[a - 1], before[b - 1]));
                }
            }
            assert forall|k: int| 0 <= k < after.len() implies given.take(i + 1).contains(
                #[trigger] after[k],
            ) by {
                if k == p {
                    assert(given.take(i + 1)[i as int] == after[k]);
                } else {
                    let old_k = if k < p {
                        k
                    } else {
                        k - 1
                    };
                    assert(given.take(i as int).contains(before[old_k]));
                    let x = choose|x: int| 0 <= x < i && given.take(i as int)[x] == before[old_k];
                    assert(given.take(i + 1)[x] == after[k]);
                }
            }
            assert forall|k: int| 0 <= k < i + 1 implies after.contains(#[trigger] given[k]) by {
                if k == i {
                    assert(after[p as int] == given[k]);
                } else {
                    assert(before.contains(given[k]));
                    let x = choose|x: int| 0 <= x < before.len() && before[x] == given[k];
                    if x < p {
                        assert(after[x] == given[k]);
                    } else {
                        assert(after[x + 1] == given[k]);
                    }
                }
            }
        }
        i = i + 1;
    }
    let ghost out = category_views(r@);
    proof {
        let all = breakdown_views(items@);
        assert(given.take(i as int) =~= given);
        assert forall|k: int| 0 <= k < out.len() implies {
            &&& (#[trigger] out[k]) == category(all, out[k].rule_id)
            &&& occurs(all, out[k].rule_id)
        } by {
            assert(given.contains(out[k]));
            let x = choose|x: int| 0 <= x < given.len() && given[x] == out[k];
            assert(given[x] == category(all, given[x].rule_id));
        }
        assert forall|x: int| 0 <= x < all.len() implies is_listed(
            out,
            (#[trigger] all[x]).rule_id,
        ) by {
            assert(is_listed(given, all[x].rule_id));
            let k = choose|k: int|
                0 <= k < given.len() && (#[trigger] given[k]).rule_id == all[x].rule_id;
            assert(out.contains(given[k]));
            let y = choose|y: int| 0 <= y < out.len() && out[y] == given[k];
            assert(out[y].rule_id == all[x].rule_id);
        }
        assert forall|a: int, b: int| 0 <= a < b < out.len() implies (#[trigger] out[a]).rule_id
            != (#[trigger] out[b]).rule_id by {
            assert(shown_before(out[a], out[b]));
            if out[a].rule_id == out[b].rule_id {
                assert(out[a] == category(all, out[a].rule_id));
                assert(out[b] == category(all, out[b].rule_id));
                crate::text::text_before_irreflexive(out[a].rule_id);
            }
        }
    }
    r
}

/// One for an item in the range `bucket`.
pub open spec fn one_in(bucket: SizeBucket) -> spec_fn(BreakdownItemView) -> nat {
    |i: BreakdownItemView|
        if bucket.holds(i.size) {
            1nat
        } else {
            0nat
        }
}

/// The size of an item in the range `bucket`.
pub open spec fn size_in(bucket: SizeBucket) -> spec_fn(BreakdownItemView) -> nat {
    |i: BreakdownItemView|
        if bucket.holds(i.size) {
            i.size as nat
        } else {
            0nat
        }
}

/// `b` is what the range `bucket` accounts for among `items`.
pub open spec fn is_bucket_of(
    b: BucketBreakdown,
    bucket: SizeBucket,
    items: Seq<BreakdownItemView>,
) -> bool {
    &&& b.bucket == bucket
    &&& b.item_count == total(items, one_in(bucket))
    &&& b.total_size == total(items, size_in(bucket))
}

/// What the ranges of sizes account for, for the range `bucket`.
fn one_bucket(items: &[BreakdownItem], bucket: SizeBucket) -> (r: BucketBreakdown)
    requires
        total(breakdown_views(items@), size_of_item()) <= u64::MAX,
    ensures
        is_bucket_of(r, bucket, breakdown_views(items@)),
{
    let ghost all = breakdown_views(items@);
    let mut count: usize = 0;
    let mut size: u64 = 0;
    let mut i: usize = 0;
    while i < items.len()
        invariant
            i <= items@.len(),
            all == breakdown_views(items@),
            total(all, size_of_item()) <= u64::MAX,
            count <= i,
            count == total(all.take(i as int), one_in(bucket)),
            size == total(all.take(i as int), size_in(bucket)),
        decreases items@.len() - i,
    {
        proof {
            total_take(all, i as int, one_in(bucket));
            total_take(all, i as int, size_in(bucket));
            assert(all[i as int] == items@[i as int]@);
            crate::seqs::total_monotone(all, size_in(bucket), size_of_item());
        }
        if SizeBucket::for_size(items[i].size) == bucket {
            count = count + 1;
            size = size + items[i].size;
        }
        i = i + 1;
    }
    assert(all.take(i as int) =~= all);
    BucketBreakdown { bucket, item_count: count, total_size: size }
}

/// What the ranges of sizes account for: all five of them in their order, the
/// empty ones too.
pub fn by_size_bucket(items: &[BreakdownItem]) -> (r: Vec<BucketBreakdown>)
    requires
        total(breakdown_views(items@), size_of_item()) <= u64::MAX,
    ensures
        r@.len() == SizeBucket::in_order().len(),
        forall|k: int|
            0 <= k < r@.len() ==> is_bucket_of(
                #[trigger] r@[k],
                SizeBucket::in_order()[k],
                breakdown_views(items@),
            ),
{
    let mut r: Vec<BucketBreakdown> = Vec::new();
    r.push(one_bucket(items, SizeBucket::UnderMib));
    r.push(one_bucket(items, SizeBucket::Mib1To10));
    r.push(one_bucket(items, SizeBucket::Mib10To100));
    r.push(one_bucket(items, SizeBucket::Mib100ToGib));
    r.push(one_bucket(items, SizeBucket::OverGib));
    r
}

// ---- What holds of the two breakdowns ----

/// The size that a category accounts for.
pub open spec fn size_of_category() -> spec_fn(CategoryView) -> nat {
    |c: CategoryView| c.total_size
}

/// The number of files that a category accounts for.
pub open spec fn files_of_category() -> spec_fn(CategoryView) -> nat {
    |c: CategoryView| c.file_count
}

/// The number of items that a category accounts for.
pub open spec fn items_of_category() -> spec_fn(CategoryView) -> nat {
    |c: CategoryView| c.item_count
}

/// What `f` gives for an item of the rule `id`.
spec fn of_rule(f: spec_fn(BreakdownItemView) -> nat, id: Seq<char>) -> spec_fn(
    BreakdownItemView,
) -> nat {
    |i: BreakdownItemView|
        if i.rule_id == id {
            f(i)
        } else {
            0nat
        }
}

/// What `c` would account for by `f` with the items up to `n` alone.
spec fn partial(
    items: Seq<BreakdownItemView>,
    f: spec_fn(BreakdownItemView) -> nat,
    n: int,
) -> spec_fn(CategoryView) -> nat {
    |c: CategoryView| total(items.take(n), of_rule(f, c.rule_id))
}

spec fn value_at(id: Seq<char>, v: nat) -> spec_fn(CategoryView) -> nat {
    |c: CategoryView|
        if c.rule_id == id {
            v
        } else {
            0nat
        }
}

proof fn value_counts_once(categories: Seq<CategoryView>, id: Seq<char>, v: nat)
    requires
        forall|j: int, k: int|
            0 <= j < k < categories.len() ==> (#[trigger] categories[j]).rule_id != (
            #[trigger] categories[k]).rule_id,
    ensures
        total(categories, value_at(id, v)) == (if is_listed(categories, id) {
            v
        } else {
            0
        }),
    decreases categories.len(),
{
    if categories.len() > 0 {
        let front = categories.drop_last();
        let last = categories.last();
        assert forall|j: int, k: int| 0 <= j < k < front.len() implies (
        #[trigger] front[j]).rule_id != (#[trigger] front[k]).rule_id by {
            assert(categories[j].rule_id != categories[k].rule_id);
        }
        value_counts_once(front, id, v);
        assert(categories[categories.len() - 1] == last);
        if is_listed(front, id) {
            let k = choose|k: int| 0 <= k < front.len() && (#[trigger] front[k]).rule_id == id;
            assert(categories[k].rule_id == id);
            assert(last.rule_id != id) by {
                assert(categories[k].rule_id != categories[categories.len() - 1].rule_id);
            }
        } else if is_listed(categories, id) {
            let k = choose|k: int|
                0 <= k < categories.len() && (#[trigger] categories[k]).rule_id == id;
            if k < front.len() {
                assert(front[k].rule_id == id);
            }
        }
    }
}

proof fn partial_step(
    categories: Seq<CategoryView>,
    items: Seq<BreakdownItemView>,
    f: spec_fn(BreakdownItemView) -> nat,
    n: int,
)
    requires
        0 <= n < items.len(),
    ensures
        total(categories, partial(items, f, n + 1)) == total(categories, partial(items, f, n))
            + total(categories, value_at(items[n].rule_id, f(items[n]))),
    decreases categories.len(),
{
    if categories.len() > 0 {
        partial_step(categories.drop_last(), items, f, n);
        total_take(items, n, of_rule(f, categories.last().rule_id));
    }
}

proof fn partial_total(
    categories: Seq<CategoryView>,
    items: Seq<BreakdownItemView>,
    f: spec_fn(BreakdownItemView) -> nat,
    n: int,
)
    requires
        are_categories(items, categories),
        0 <= n <= items.len(),
    ensures
        total(categories, partial(items, f, n)) == total(items.take(n), f),
    decreases n,
{
    if n == 0 {
        zero_total(categories, partial(items, f, 0));
    } else {
        partial_total(categories, items, f, n - 1);
        partial_step(categories, items, f, n - 1);
        value_counts_once(categories, items[n - 1].rule_id, f(items[n - 1]));
        assert(is_listed(categories, items[n - 1].rule_id));
        total_take(items, n - 1, f);
    }
}

proof fn zero_total(categories: Seq<CategoryView>, f: spec_fn(CategoryView) -> nat)
    requires
        forall|c: CategoryView| #[trigger] f(c) == 0,
    ensures
        total(categories, f) == 0,
    decreases categories.len(),
{
    if categories.len() > 0 {
        zero_total(categories.drop_last(), f);
    }
}

proof fn same_total(
    categories: Seq<CategoryView>,
    f: spec_fn(CategoryView) -> nat,
    g: spec_fn(CategoryView) -> nat,
)
    requires
        forall|k: int| 0 <= k < categories.len() ==> f(#[trigger] categories[k]) == g(
            categories[k],
        ),
    ensures
        total(categories, f) == total(categories, g),
{
    crate::seqs::total_monotone(categories, f, g);
    crate::seqs::total_monotone(categories, g, f);
}

/// What the categories account for by `f` adds up to what the items do.
proof fn categories_add_up(
    items: Seq<BreakdownItemView>,
    categories: Seq<CategoryView>,
    f: spec_fn(BreakdownItemView) -> nat,
    g: spec_fn(CategoryView) -> nat,
)
    requires
        are_categories(items, categories),
        forall|k: int|
            0 <= k < categories.len() ==> g(#[trigger] categories[k]) == total(
                items,
                of_rule(f, categories[k].rule_id),
            ),
    ensures
        total(categories, g) == total(items, f),
{
    let n = items.len() as int;
    partial_total(categories, items, f, n);
    assert(items.take(n) =~= items);
    same_total(categories, partial(items, f, n), g);
}

/// The rules together account for the size, the files and the number of all
/// items.
pub proof fn categories_cover_the_total(
    items: Seq<BreakdownItemView>,
    categories: Seq<CategoryView>,
)
    requires
        are_categories(items, categories),
    ensures
        total(categories, size_of_category()) == total(items, size_of_item()),
        total(categories, files_of_category()) == total(items, files_of_item()),
        total(categories, items_of_category()) == items.len(),
{
    let one = |i: BreakdownItemView| 1nat;
    assert forall|k: int| 0 <= k < categories.len() implies {
        let id = (#[trigger] categories[k]).rule_id;
        &&& categories[k].total_size == total(items, of_rule(size_of_item(), id))
        &&& categories[k].file_count == total(items, of_rule(files_of_item(), id))
        &&& categories[k].item_count == total(items, of_rule(one, id))
    } by {
        let id = categories[k].rule_id;
        assert(categories[k] == category(items, id));
        assert(size_of(id) =~= of_rule(size_of_item(), id));
        assert(files_of(id) =~= of_rule(files_of_item(), id));
        assert(one_of(id) =~= of_rule(one, id));
    }
    categories_add_up(items, categories, size_of_item(), size_of_category());
    categories_add_up(items, categories, files_of_item(), files_of_category());
    categories_add_up(items, categories, one, items_of_category());
    ones_add_up(items, one);
}

proof fn ones_add_up(items: Seq<BreakdownItemView>, one: spec_fn(BreakdownItemView) -> nat)
    requires
        forall|i: BreakdownItemView| #[trigger] one(i) == 1,
    ensures
        total(items, one) == items.len(),
    decreases items.len(),
{
    if items.len() > 0 {
        ones_add_up(items.drop_last(), one);
    }
}

/// The ranges of sizes together account for the size and the number of all
/// items.
pub proof fn buckets_cover_the_total(items: Seq<BreakdownItemView>)
    ensures
        total(items, size_of_item()) == total(items, size_in(SizeBucket::UnderMib)) + total(
            items,
            size_in(SizeBucket::Mib1To10),
        ) + total(items, size_in(SizeBucket::Mib10To100)) + total(
            items,
            size_in(SizeBucket::Mib100ToGib),
        ) + total(items, size_in(SizeBucket::OverGib)),
        items.len() == total(items, one_in(SizeBucket::UnderMib)) + total(
            items,
            one_in(SizeBucket::Mib1To10),
        ) + total(items, one_in(SizeBucket::Mib10To100)) + total(
            items,
            one_in(SizeBucket::Mib100ToGib),
        ) + total(items, one_in(SizeBucket::OverGib)),
    decreases items.len(),
{
    if items.len() > 0 {
        buckets_cover_the_total(items.drop_last());
    }
}

/// The two breakdowns of the same items come to the same size and the same
/// number of items.
pub proof fn bucket_totals_equal_category_totals(
    items: Seq<BreakdownItemView>,
    categories: Seq<CategoryView>,
    buckets: Seq<BucketBreakdown>,
)
    requires
        are_categories(items, categories),
        buckets.len() == SizeBucket::in_order().len(),
        forall|k: int|
            0 <= k < buckets.len() ==> is_bucket_of(
                #[trigger] buckets[k],
                SizeBucket::in_order()[k],
                items,
            ),
    ensures
        total(categories, size_of_category()) == buckets[0].total_size + buckets[1].total_size
            + buckets[2].total_size + buckets[3].total_size + buckets[4].total_size,
        total(categories, items_of_category()) == buckets[0].item_count + buckets[1].item_count
            + buckets[2].item_count + buckets[3].item_count + buckets[4].item_count,
{
    categories_cover_the_total(items, categories);
    buckets_cover_the_total(items);
}

/// The breakdown of a plan comes to the size of the plan.
pub proof fn plan_breakdown_covers_the_plan(plan: crate::delete::DeletePlanView)
    ensures
        total(plan.items.map_values(planned_item()), size_of_item()) == plan.total_size(),
        total(plan.items.map_values(planned_item()), files_of_item()) == plan.total_file_count(),
{
    mapped_totals(plan.items);
}

proof fn mapped_totals(items: Seq<PlannedDeletionView>)
    ensures
        total(items.map_values(planned_item()), size_of_item()) == total(
            items,
            crate::delete::item_size(),
        ),
        total(items.map_values(planned_item()), files_of_item()) == total(
            items,
            crate::delete::item_files(),
        ),
    decreases items.len(),
{
    if items.len() > 0 {
        mapped_totals(items.drop_last());
        assert(items.map_values(planned_item()).drop_last() =~= items.drop_last().map_values(
            planned_item(),
        ));
    }
}

// ---- What is broken down ----

/// A size falls into the bucket that its bytes say: below one mebibyte, below
/// ten, below a hundred, below a gibibyte, or above.
pub proof fn which_bucket_a_size_falls_into(size: u64)
    ensures
        SizeBucket::UnderMib.holds(size) <==> size < 1024 * 1024,
        SizeBucket::Mib1To10.holds(size) <==> 1024 * 1024 <= size < 10 * 1024 * 1024,
        SizeBucket::Mib10To100.holds(size) <==> 10 * 1024 * 1024 <= size < 100 * 1024 * 1024,
        SizeBucket::Mib100ToGib.holds(size) <==> 100 * 1024 * 1024 <= size < 1024 * 1024 * 1024,
        SizeBucket::OverGib.holds(size) <==> size >= 1024 * 1024 * 1024,
{
}

/// Buckets are shown from the smallest sizes to the largest, each of them once.
pub proof fn buckets_are_shown_by_size(j: int, k: int, a: u64, b: u64)
    requires
        0 <= j < k < SizeBucket::in_order().len(),
        SizeBucket::in_order()[j].holds(a),
        SizeBucket::in_order()[k].holds(b),
    ensures
        a < b,
        SizeBucket::in_order().len() == 5,
{
}

/// An item is counted in the category of its rule, with its files and its bytes,
/// and in no other.
pub proof fn what_a_category_counts(
    items: Seq<BreakdownItemView>,
    item: BreakdownItemView,
    id: Seq<char>,
)
    ensures
        ({
            let before = category(items, id);
            let after = category(items.push(item), id);
            &&& after.rule_id == id
            &&& item.rule_id == id ==> after.item_count == before.item_count + 1
                && after.file_count == before.file_count + item.file_count && after.total_size
                == before.total_size + item.size
            &&& item.rule_id != id ==> after == before
            &&& items.len() == 0 ==> before.item_count == 0 && before.file_count == 0
                && before.total_size == 0
        }),
{
    crate::seqs::total_push(items, item, one_of(id));
    crate::seqs::total_push(items, item, files_of(id));
    crate::seqs::total_push(items, item, size_of(id));
}

/// An item is counted in the bucket that holds its size, with its bytes, and in
/// no other.
pub proof fn what_a_bucket_counts(
    items: Seq<BreakdownItemView>,
    item: BreakdownItemView,
    bucket: SizeBucket,
    before: BucketBreakdown,
    after: BucketBreakdown,
)
    requires
        is_bucket_of(before, bucket, items),
        is_bucket_of(after, bucket, items.push(item)),
    ensures
        after.bucket == bucket,
        bucket.holds(item.size) ==> after.item_count == before.item_count + 1 && after.total_size
            == before.total_size + item.size,
        !bucket.holds(item.size) ==> after.item_count == before.item_count && after.total_size
            == before.total_size,
        items.len() == 0 ==> before.item_count == 0 && before.total_size == 0,
{
    crate::seqs::total_push(items, item, one_in(bucket));
    crate::seqs::total_push(items, item, size_in(bucket));
}

/// Categories are shown from the largest to the smallest, those of the same size
/// in the order of their ids.
pub proof fn categories_are_shown_by_size(categories: Seq<CategoryView>, j: int, k: int)
    requires
        in_shown_order(categories),
        0 <= j < k < categories.len(),
    ensures
        categories[j].total_size >= categories[k].total_size,
        categories[j].total_size == categories[k].total_size ==> text_before(
            categories[j].rule_id,
            categories[k].rule_id,
        ),
{
    assert(shown_before(categories[j], categories[k]));
}

/// Of a scan the selected entries are broken down, all of them and no others.
pub proof fn selected_entries_are_broken_down(entries: Seq<ScanEntryView>, entry: ScanEntryView)
    ensures
        entry.selected ==> entries.push(entry).filter_map(selected_item()) == entries.filter_map(
            selected_item(),
        ).push(
            BreakdownItemView {
                rule_id: entry.rule_id,
                size: entry.size,
                file_count: entry.file_count,
            },
        ),
        !entry.selected ==> entries.push(entry).filter_map(selected_item()) == entries.filter_map(
            selected_item(),
        ),
{
    assert(entries.push(entry).drop_last() =~= entries);
}

} // verus!
