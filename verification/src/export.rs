//! Scans and plans in a form for other programs: CSV text, and the documents
//! that JSON text is made of.
//!
//! Everything here only reads: no plan is consumed.

use crate::breakdown::{
    are_categories, are_countable, breakdown_views, by_rule, by_size_bucket, category_views,
    from_plan, from_selected_entries, in_shown_order, is_bucket_of, planned_item, selected_item,
    BucketBreakdown, CategoryBreakdown, SizeBucket,
};
use crate::delete::{
    excluded_views, item_views, DeleteAction, DeleteMethod, DeletePlan, DeletePlanView,
    DryRunReason, ExcludedEntry, ExcludedEntryView, ExclusionReason, PlannedDeletion,
    PlannedDeletionView,
};
use crate::entry::{entry_views, ScanEntry, ScanEntryView};
use crate::path::{FilePath, FilePathView};
use crate::rule::{rule_views, Rule, RuleView, Safety};
use crate::seqs::{total, total_take};
use crate::text::{chars_of, decimal, decimal_text, texts_of};
use vstd::prelude::*;

verus! {

/// The version of the exported documents.
pub const SCHEMA_VERSION: u32 = 1;

// ---- Rules by id ----

/// The last rule with the id `id`.
pub open spec fn last_rule(rules: Seq<RuleView>, id: Seq<char>) -> Option<RuleView>
    decreases rules.len(),
{
    if rules.len() == 0 {
        None
    } else if rules.last().id == id {
        Some(rules.last())
    } else {
        last_rule(rules.drop_last(), id)
    }
}

/// The label of the rule `id`; the id itself where the rule is unknown.
pub open spec fn label_of(rules: Seq<RuleView>, id: Seq<char>) -> Seq<char> {
    match last_rule(rules, id) {
        Some(rule) => rule.label,
        None => id,
    }
}

/// The safety of the rule `id`; where the rule is unknown, the one that calls
/// for most care.
pub open spec fn safety_of(rules: Seq<RuleView>, id: Seq<char>) -> Safety {
    match last_rule(rules, id) {
        Some(rule) => rule.safety,
        None => Safety::Review,
    }
}

/// The label and the safety of the rule `rule_id`.
pub fn rule_lookup(rules: &[Rule], rule_id: &str) -> (r: (String, Safety))
    ensures
        r.0@ == label_of(rule_views(rules@), rule_id@),
        r.1 == safety_of(rule_views(rules@), rule_id@),
{
    let ghost all = rule_views(rules@);
    let mut n: usize = rules.len();
    assert(all.take(n as int) =~= all);
    while n > 0
        invariant
            n <= rules@.len(),
            all == rule_views(rules@),
            last_rule(all, rule_id@) == last_rule(all.take(n as int), rule_id@),
        decreases n,
    {
        assert(all.take(n as int).drop_last() =~= all.take(n - 1));
        assert(all.take(n as int).last() == rules@[n - 1]@);
        if crate::text::same_text(rules[n - 1].id.as_str(), rule_id) {
            return (rules[n - 1].label.clone(), rules[n - 1].safety);
        }
        n = n - 1;
    }
    (rule_id.to_owned(), Safety::Review)
}

// ---- Names ----

/// The name of a safety.
pub open spec fn safety_text(safety: Safety) -> Seq<char> {
    match safety {
        Safety::Safe => "Safe"@,
        Safety::Caution => "Caution"@,
        Safety::Review => "Review"@,
    }
}

/// The name of a safety.
pub fn safety_name(safety: Safety) -> (r: &'static str)
    ensures
        r@ == safety_text(safety),
{
    match safety {
        Safety::Safe => "Safe",
        Safety::Caution => "Caution",
        Safety::Review => "Review",
    }
}

/// The name of an action.
pub open spec fn action_text(action: DeleteAction) -> Seq<char> {
    match action {
        DeleteAction::ToTrash => "ToTrash"@,
        DeleteAction::RemovePath => "RemovePath"@,
        DeleteAction::EmptyContainer => "EmptyContainer"@,
    }
}

/// The name of an action.
pub fn action_name(action: DeleteAction) -> (r: &'static str)
    ensures
        r@ == action_text(action),
{
    match action {
        DeleteAction::ToTrash => "ToTrash",
        DeleteAction::RemovePath => "RemovePath",
        DeleteAction::EmptyContainer => "EmptyContainer",
    }
}

/// The name of a reason for exclusion.
pub open spec fn exclusion_text(reason: ExclusionReason) -> Seq<char> {
    match reason {
        ExclusionReason::NotSelected => "NotSelected"@,
        ExclusionReason::UnknownRule => "UnknownRule"@,
        ExclusionReason::NeedsAdmin => "NeedsAdmin"@,
        ExclusionReason::OutsideRuleBase => "OutsideRuleBase"@,
        ExclusionReason::UnresolvedBase => "UnresolvedBase"@,
        ExclusionReason::RequiresPermanent => "RequiresPermanent"@,
    }
}

/// The name of a reason for exclusion.
pub fn exclusion_name(reason: ExclusionReason) -> (r: &'static str)
    ensures
        r@ == exclusion_text(reason),
{
    match reason {
        ExclusionReason::NotSelected => "NotSelected",
        ExclusionReason::UnknownRule => "UnknownRule",
        ExclusionReason::NeedsAdmin => "NeedsAdmin",
        ExclusionReason::OutsideRuleBase => "OutsideRuleBase",
        ExclusionReason::UnresolvedBase => "UnresolvedBase",
        ExclusionReason::RequiresPermanent => "RequiresPermanent",
    }
}

/// `true` or `false`.
pub open spec fn flag_text(b: bool) -> Seq<char> {
    if b {
        "true"@
    } else {
        "false"@
    }
}

fn flag_name(b: bool) -> (r: String)
    ensures
        r@ == flag_text(b),
{
    if b {
        "true".to_owned()
    } else {
        "false".to_owned()
    }
}

// ---- CSV ----

/// The first line of every CSV text.
pub const CSV_HEADER: &'static str = "kind,rule_id,rule_label,safety,path,size_bytes,file_count,age_days,recommended,selected,action,reason";

/// `s` with every quote doubled.
pub open spec fn doubled(s: Seq<char>) -> Seq<char>
    decreases s.len(),
{
    if s.len() == 0 {
        s
    } else if s.last() == '"' {
        doubled(s.drop_last()) + seq!['"', '"']
    } else {
        doubled(s.drop_last()).push(s.last())
    }
}

/// The value holds a character that has a meaning of its own in CSV text.
pub open spec fn needs_csv_quotes(value: Seq<char>) -> bool {
    value.contains(',') || value.contains('"') || value.contains('\n') || value.contains('\r')
}

/// A value as a CSV field: as it is, or between quotes with its own quotes
/// doubled.
pub open spec fn csv_field(value: Seq<char>) -> Seq<char> {
    if needs_csv_quotes(value) {
        seq!['"'] + doubled(value) + seq!['"']
    } else {
        value
    }
}

/// Values as fields with commas between them.
pub open spec fn csv_fields(values: Seq<Seq<char>>) -> Seq<char>
    decreases values.len(),
{
    if values.len() == 0 {
        Seq::empty()
    } else if values.len() == 1 {
        csv_field(values[0])
    } else {
        csv_fields(values.drop_last()).push(',') + csv_field(values.last())
    }
}

/// Values as one line.
pub open spec fn csv_row(values: Seq<Seq<char>>) -> Seq<char> {
    csv_fields(values).push('\n')
}

/// Lines of values, one below the other.
pub open spec fn csv_rows(rows: Seq<Seq<Seq<char>>>) -> Seq<char>
    decreases rows.len(),
{
    if rows.len() == 0 {
        Seq::empty()
    } else {
        csv_rows(rows.drop_last()) + csv_row(rows.last())
    }
}

/// The header and lines of values.
pub open spec fn csv_text(rows: Seq<Seq<Seq<char>>>) -> Seq<char> {
    CSV_HEADER@.push('\n') + csv_rows(rows)
}

/// A value as a CSV field.
pub fn quote_csv_field(value: &str) -> (r: String)
    ensures
        r@ == csv_field(value@),
{
    if !(crate::text::contains_char(value, ',') || crate::text::contains_char(value, '"')
        || crate::text::contains_char(value, '\n') || crate::text::contains_char(value, '\r')) {
        return value.to_owned();
    }
    let chars = chars_of(value);
    let mut out = String::new();
    out.push('"');
    let mut i: usize = 0;
    assert(out@ =~= seq!['"'] + doubled(chars@.take(0)));
    while i < chars.len()
        invariant
            i <= chars@.len(),
            out@ == seq!['"'] + doubled(chars@.take(i as int)),
        decreases chars@.len() - i,
    {
        let c = chars[i];
        assert(chars@.take(i + 1).drop_last() =~= chars@.take(i as int));
        if c == '"' {
            out.push('"');
        }
        out.push(c);
        i = i + 1;
        assert(out@ =~= seq!['"'] + doubled(chars@.take(i as int)));
    }
    assert(chars@.take(i as int) =~= chars@);
    out.push('"');
    assert(out@ =~= csv_field(value@));
    out
}

/// Appends values as one line.
pub fn write_csv_row(out: &mut String, fields: &Vec<String>)
    ensures
        final(out)@ == old(out)@ + csv_row(texts_of(fields@)),
{
    let ghost before = out@;
    let ghost all = texts_of(fields@);
    let mut i: usize = 0;
    assert(out@ =~= before + csv_fields(all.take(0)));
    while i < fields.len()
        invariant
            i <= fields@.len(),
            all == texts_of(fields@),
            out@ == before + csv_fields(all.take(i as int)),
        decreases fields@.len() - i,
    {
        let ghost seen = all.take(i as int);
        let ghost now = all.take(i + 1);
        assert(now.drop_last() =~= seen);
        assert(now.last() == fields@[i as int]@);
        let field = quote_csv_field(fields[i].as_str());
        if i > 0 {
            out.push(',');
        } else {
            assert(seen =~= Seq::<Seq<char>>::empty());
        }
        out.append(field.as_str());
        assert(out@ =~= before + csv_fields(now));
        i = i + 1;
    }
    assert(all.take(i as int) =~= all);
    out.push('\n');
    assert(out@ =~= before + csv_row(all));
}

/// The values that stand for a scanned entry.
pub open spec fn scan_row(e: ScanEntryView, rules: Seq<RuleView>) -> Seq<Seq<char>> {
    seq![
        "scan"@,
        e.rule_id,
        label_of(rules, e.rule_id),
        safety_text(safety_of(rules, e.rule_id)),
        e.path.text,
        decimal(e.size as nat),
        decimal(e.file_count as nat),
        match e.age_days {
            Some(days) => decimal(days as nat),
            None => Seq::empty(),
        },
        flag_text(e.recommended),
        flag_text(e.selected),
        Seq::empty(),
        e.reason,
    ]
}

/// The values that stand for a planned deletion.
pub open spec fn plan_row(item: PlannedDeletionView, rules: Seq<RuleView>) -> Seq<Seq<char>> {
    seq![
        "plan"@,
        item.rule_id,
        label_of(rules, item.rule_id),
        safety_text(safety_of(rules, item.rule_id)),
        item.path.text,
        decimal(item.size as nat),
        decimal(item.file_count as nat),
        Seq::empty(),
        Seq::empty(),
        Seq::empty(),
        action_text(item.action),
        Seq::empty(),
    ]
}

/// The values that stand for an excluded entry.
pub open spec fn excluded_row(e: ExcludedEntryView, rules: Seq<RuleView>) -> Seq<Seq<char>> {
    seq![
        "excluded"@,
        e.rule_id,
        label_of(rules, e.rule_id),
        safety_text(safety_of(rules, e.rule_id)),
        e.path.text,
        decimal(e.size as nat),
        Seq::empty(),
        Seq::empty(),
        Seq::empty(),
        Seq::empty(),
        Seq::empty(),
        exclusion_text(e.reason),
    ]
}

/// The rows of a scan.
pub open spec fn scan_rows(
    entries: Seq<ScanEntryView>,
    rules: Seq<RuleView>,
) -> Seq<Seq<Seq<char>>> {
    Seq::new(entries.len(), |i: int| scan_row(entries[i], rules))
}

/// The rows of a plan: what is deleted, then what is not.
pub open spec fn plan_rows(plan: DeletePlanView, rules: Seq<RuleView>) -> Seq<Seq<Seq<char>>> {
    Seq::new(plan.items.len(), |i: int| plan_row(plan.items[i], rules)) + Seq::new(
        plan.excluded.len(),
        |i: int| excluded_row(plan.excluded[i], rules),
    )
}

proof fn csv_rows_push(rows: Seq<Seq<Seq<char>>>, row: Seq<Seq<char>>)
    ensures
        csv_rows(rows.push(row)) == csv_rows(rows) + csv_row(row),
{
    assert(rows.push(row).drop_last() =~= rows);
}

fn age_text(age_days: Option<u64>) -> (r: String)
    ensures
        r@ == (match age_days {
            Some(days) => decimal(days as nat),
            None => Seq::empty(),
        }),
{
    match age_days {
        Some(days) => decimal_text(days),
        None => String::new(),
    }
}

fn scan_fields(e: &ScanEntry, rules: &[Rule]) -> (r: Vec<String>)
    ensures
        texts_of(r@) == scan_row(e@, rule_views(rules@)),
{
    let (label, safety) = rule_lookup(rules, e.rule_id.as_str());
    let mut f: Vec<String> = Vec::new();
    f.push("scan".to_owned());
    f.push(e.rule_id.clone());
    f.push(label);
    f.push(safety_name(safety).to_owned());
    f.push(e.path.text.clone());
    f.push(decimal_text(e.size));
    f.push(decimal_text(e.file_count));
    f.push(age_text(e.age_days));
    f.push(flag_name(e.recommended));
    f.push(flag_name(e.selected));
    f.push(String::new());
    f.push(e.reason.clone());
    assert(texts_of(f@) =~= scan_row(e@, rule_views(rules@)));
    f
}

fn plan_fields(item: &PlannedDeletion, rules: &[Rule]) -> (r: Vec<String>)
    ensures
        texts_of(r@) == plan_row(item@, rule_views(rules@)),
{
    let (label, safety) = rule_lookup(rules, item.rule_id.as_str());
    let mut f: Vec<String> = Vec::new();
    f.push("plan".to_owned());
    f.push(item.rule_id.clone());
    f.push(label);
    f.push(safety_name(safety).to_owned());
    f.push(item.path.text.clone());
    f.push(decimal_text(item.size));
    f.push(decimal_text(item.file_count));
    f.push(String::new());
    f.push(String::new());
    f.push(String::new());
    f.push(action_name(item.action).to_owned());
    f.push(String::new());
    assert(texts_of(f@) =~= plan_row(item@, rule_views(rules@)));
    f
}

fn excluded_fields(e: &ExcludedEntry, rules: &[Rule]) -> (r: Vec<String>)
    ensures
        texts_of(r@) == excluded_row(e@, rule_views(rules@)),
{
    let (label, safety) = rule_lookup(rules, e.rule_id.as_str());
    let mut f: Vec<String> = Vec::new();
    f.push("excluded".to_owned());
    f.push(e.rule_id.clone());
    f.push(label);
    f.push(safety_name(safety).to_owned());
    f.push(e.path.text.clone());
    f.push(decimal_text(e.size));
    f.push(String::new());
    f.push(String::new());
    f.push(String::new());
    f.push(String::new());
    f.push(String::new());
    f.push(exclusion_name(e.reason).to_owned());
    assert(texts_of(f@) =~= excluded_row(e@, rule_views(rules@)));
    f
}

fn csv_start() -> (r: String)
    ensures
        r@ == CSV_HEADER@.push('\n'),
{
    let mut out = CSV_HEADER.to_owned();
    out.push('\n');
    out
}

/// A scan as CSV text: the header and one line for each entry.
pub fn scan_to_csv(entries: &[ScanEntry], rules: &[Rule]) -> (r: String)
    ensures
        r@ == csv_text(scan_rows(entry_views(entries@), rule_views(rules@))),
{
    let ghost rows = scan_rows(entry_views(entries@), rule_views(rules@));
    let mut out = csv_start();
    let ghost head = out@;
    let mut i: usize = 0;
    assert(out@ =~= head + csv_rows(rows.take(0)));
    while i < entries.len()
        invariant
            i <= entries@.len(),
            rows == scan_rows(entry_views(entries@), rule_views(rules@)),
            out@ == head + csv_rows(rows.take(i as int)),
        decreases entries@.len() - i,
    {
        let fields = scan_fields(&entries[i], rules);
        proof {
            assert(entry_views(entries@)[i as int] == entries@[i as int]@);
            assert(rows.take(i + 1) =~= rows.take(i as int).push(rows[i as int]));
            csv_rows_push(rows.take(i as int), rows[i as int]);
        }
        write_csv_row(&mut out, &fields);
        i = i + 1;
        assert(out@ =~= head + csv_rows(rows.take(i as int)));
    }
    assert(rows.take(i as int) =~= rows);
    out
}

/// A plan as CSV text: the header, one line for each item that is deleted, and
/// one for each that is not.
pub fn plan_to_csv(plan: &DeletePlan, rules: &[Rule]) -> (r: String)
    ensures
        r@ == csv_text(plan_rows(plan@, rule_views(rules@))),
{
    let ghost rows = plan_rows(plan@, rule_views(rules@));
    let items = plan.items();
    let excluded = plan.excluded();
    let mut out = csv_start();
    let ghost head = out@;
    let mut i: usize = 0;
    assert(out@ =~= head + csv_rows(rows.take(0)));
    while i < items.len()
        invariant
            i <= items@.len(),
            plan@.items == item_views(items@),
            rows == plan_rows(plan@, rule_views(rules@)),
            out@ == head + csv_rows(rows.take(i as int)),
        decreases items@.len() - i,
    {
        let fields = plan_fields(&items[i], rules);
        proof {
            assert(plan@.items[i as int] == items@[i as int]@);
            assert(rows[i as int] == plan_row(plan@.items[i as int], rule_views(rules@)));
            assert(rows.take(i + 1) =~= rows.take(i as int).push(rows[i as int]));
            csv_rows_push(rows.take(i as int), rows[i as int]);
        }
        write_csv_row(&mut out, &fields);
        i = i + 1;
        assert(out@ =~= head + csv_rows(rows.take(i as int)));
    }
    let ghost n = items@.len() as int;
    let mut j: usize = 0;
    while j < excluded.len()
        invariant
            j <= excluded@.len(),
            n == plan@.items.len(),
            plan@.excluded == excluded_views(excluded@),
            rows == plan_rows(plan@, rule_views(rules@)),
            out@ == head + csv_rows(rows.take(n + j)),
        decreases excluded@.len() - j,
    {
        let fields = excluded_fields(&excluded[j], rules);
        proof {
            assert(plan@.excluded[j as int] == excluded@[j as int]@);
            assert(rows[n + j] == excluded_row(plan@.excluded[j as int], rule_views(rules@)));
            assert(rows.take(n + j + 1) =~= rows.take(n + j).push(rows[n + j]));
            csv_rows_push(rows.take(n + j), rows[n + j]);
        }
        write_csv_row(&mut out, &fields);
        j = j + 1;
        assert(out@ =~= head + csv_rows(rows.take(n + j)));
    }
    assert(rows.take(n + j) =~= rows);
    out
}

// ---- Reading CSV text ----

/// Where a reader of CSV text is within a field.
pub enum CsvState {
    /// At its start.
    Start,
    /// In a field without quotes.
    Plain,
    /// Between the quotes of a field.
    Quoted,
    /// After a quote that closes the field, unless another quote follows.
    Closing,
}

/// How far CSV text has been read.
#[verifier::ext_equal]
pub struct CsvReader {
    /// The rows that are complete.
    pub rows: Seq<Seq<Seq<char>>>,
    /// The fields of the row that is being read.
    pub row: Seq<Seq<char>>,
    /// The field that is being read.
    pub field: Seq<char>,
    /// Where the reader is in that field.
    pub state: CsvState,
}

impl CsvReader {
    /// Nothing has been read.
    pub open spec fn start() -> CsvReader {
        CsvReader {
            rows: Seq::empty(),
            row: Seq::empty(),
            field: Seq::empty(),
            state: CsvState::Start,
        }
    }

    /// The field ends.
    pub open spec fn end_field(self) -> CsvReader {
        CsvReader {
            row: self.row.push(self.field),
            field: Seq::empty(),
            state: CsvState::Start,
            ..self
        }
    }

    /// The row ends, and its last field with it.
    pub open spec fn end_row(self) -> CsvReader {
        CsvReader {
            rows: self.rows.push(self.row.push(self.field)),
            row: Seq::empty(),
            field: Seq::empty(),
            state: CsvState::Start,
        }
    }

    /// The reader after `c`.
    pub open spec fn step(self, c: char) -> CsvReader {
        match self.state {
            CsvState::Quoted => if c == '"' {
                CsvReader { state: CsvState::Closing, ..self }
            } else {
                CsvReader { field: self.field.push(c), ..self }
            },
            CsvState::Closing => if c == '"' {
                CsvReader { field: self.field.push(c), state: CsvState::Quoted, ..self }
            } else if c == ',' {
                self.end_field()
            } else if c == '\n' {
                self.end_row()
            } else {
                CsvReader { field: self.field.push(c), state: CsvState::Plain, ..self }
            },
            _ => if c == ',' {
                self.end_field()
            } else if c == '\n' {
                self.end_row()
            } else if c == '"' && self.state is Start {
                CsvReader { state: CsvState::Quoted, ..self }
            } else {
                CsvReader { field: self.field.push(c), state: CsvState::Plain, ..self }
            },
        }
    }

    /// The reader after all of `text`.
    pub open spec fn read(self, text: Seq<char>) -> CsvReader
        decreases text.len(),
    {
        if text.len() == 0 {
            self
        } else {
            self.read(text.drop_last()).step(text.last())
        }
    }
}

/// The rows that a reader finds in CSV text whose lines are all ended.
pub open spec fn read_csv(text: Seq<char>) -> Seq<Seq<Seq<char>>> {
    CsvReader::start().read(text).rows
}

proof fn read_concat(reader: CsvReader, a: Seq<char>, b: Seq<char>)
    ensures
        reader.read(a + b) == reader.read(a).read(b),
    decreases b.len(),
{
    if b.len() == 0 {
        assert(a + b =~= a);
    } else {
        assert((a + b).drop_last() =~= a + b.drop_last());
        assert((a + b).last() == b.last());
        read_concat(reader, a, b.drop_last());
    }
}

proof fn read_push(reader: CsvReader, a: Seq<char>, c: char)
    ensures
        reader.read(a.push(c)) == reader.read(a).step(c),
{
    assert(a.push(c).drop_last() =~= a);
}

proof fn read_plain(reader: CsvReader, s: Seq<char>)
    requires
        reader.state is Start,
        reader.field.len() == 0,
        !needs_csv_quotes(s),
    ensures
        ({
            let after = reader.read(s);
            &&& after.rows == reader.rows
            &&& after.row == reader.row
            &&& after.field == s
            &&& after.state is Start || after.state is Plain
            &&& s.len() > 0 ==> after.state is Plain
        }),
    decreases s.len(),
{
    if s.len() == 0 {
        assert(reader.field =~= s);
    } else {
        let front = s.drop_last();
        let c = s.last();
        assert forall|x: char| front.contains(x) implies s.contains(x) by {
            let i = choose|i: int| 0 <= i < front.len() && front[i] == x;
            assert(s[i] == x);
        }
        read_plain(reader, front);
        assert(s[s.len() - 1] == c);
        assert(s.contains(c));
        assert(front.push(c) =~= s);
    }
}

proof fn read_doubled(reader: CsvReader, s: Seq<char>)
    requires
        reader.state is Quoted,
        reader.field.len() == 0,
    ensures
        reader.read(doubled(s)) == (CsvReader { field: s, ..reader }),
    decreases s.len(),
{
    if s.len() == 0 {
        assert(reader.field =~= s);
    } else {
        let front = s.drop_last();
        let c = s.last();
        read_doubled(reader, front);
        assert(front.push(c) =~= s);
        if c == '"' {
            let a = doubled(front);
            assert(a + seq!['"', '"'] =~= a.push('"').push('"'));
            read_push(reader, a.push('"'), '"');
            read_push(reader, a, '"');
        } else {
            read_push(reader, doubled(front), c);
        }
    }
}

/// Reading a field gathers its value, and the comma or line feed after it ends
/// it.
proof fn read_field(reader: CsvReader, value: Seq<char>, end: char)
    requires
        reader.state is Start,
        reader.field.len() == 0,
        end == ',' || end == '\n',
    ensures
        reader.read(csv_field(value).push(end)) == (if end == ',' {
            (CsvReader { field: value, ..reader }).end_field()
        } else {
            (CsvReader { field: value, ..reader }).end_row()
        }),
{
    let text = csv_field(value);
    read_push(reader, text, end);
    if needs_csv_quotes(value) {
        let open = seq!['"'];
        assert(text =~= (open + doubled(value)).push('"'));
        read_push(reader, open + doubled(value), '"');
        read_concat(reader, open, doubled(value));
        assert(open =~= Seq::<char>::empty().push('"'));
        read_push(reader, Seq::empty(), '"');
        let opened = reader.step('"');
        assert(reader.read(open) == opened);
        read_doubled(opened, value);
    } else {
        read_plain(reader, value);
    }
}

proof fn read_fields(reader: CsvReader, values: Seq<Seq<char>>, end: char)
    requires
        reader.state is Start,
        reader.field.len() == 0,
        reader.row.len() == 0,
        values.len() > 0,
        end == ',' || end == '\n',
    ensures
        reader.read(csv_fields(values).push(end)) == (if end == ',' {
            CsvReader { row: values, ..reader }
        } else {
            CsvReader { rows: reader.rows.push(values), ..reader }
        }),
    decreases values.len(),
{
    let front = values.drop_last();
    let last = values.last();
    assert(front.push(last) =~= values);
    assert(reader.field =~= Seq::empty());
    assert(reader.row =~= Seq::empty());
    if values.len() == 1 {
        read_field(reader, last, end);
        assert(reader.row.push(last) =~= values);
    } else {
        read_fields(reader, front, ',');
        let a = csv_fields(front).push(',');
        let b = csv_field(last).push(end);
        assert(csv_fields(values).push(end) =~= a + b);
        read_concat(reader, a, b);
        let mid = CsvReader { row: front, ..reader };
        read_field(mid, last, end);
    }
}

/// CSV text reads back as the rows that it was made of, whatever the values
/// hold.
pub proof fn csv_reads_back(rows: Seq<Seq<Seq<char>>>)
    requires
        forall|i: int| 0 <= i < rows.len() ==> (#[trigger] rows[i]).len() > 0,
    ensures
        read_csv(csv_rows(rows)) == rows,
        CsvReader::start().read(csv_rows(rows)) == (CsvReader { rows, ..CsvReader::start() }),
    decreases rows.len(),
{
    if rows.len() == 0 {
        assert(rows =~= Seq::empty());
    } else {
        let front = rows.drop_last();
        let last = rows.last();
        assert forall|i: int| 0 <= i < front.len() implies (#[trigger] front[i]).len() > 0 by {
            assert(front[i] == rows[i]);
        }
        assert(last == rows[rows.len() - 1]);
        csv_reads_back(front);
        read_concat(CsvReader::start(), csv_rows(front), csv_row(last));
        let mid = CsvReader { rows: front, ..CsvReader::start() };
        read_fields(mid, last, '\n');
        assert(front.push(last) =~= rows);
    }
}

/// The names of the columns.
pub open spec fn csv_columns() -> Seq<Seq<char>> {
    seq![
        "kind"@,
        "rule_id"@,
        "rule_label"@,
        "safety"@,
        "path"@,
        "size_bytes"@,
        "file_count"@,
        "age_days"@,
        "recommended"@,
        "selected"@,
        "action"@,
        "reason"@,
    ]
}

/// The header names the columns.
proof fn header_names_columns()
    ensures
        CSV_HEADER@ == csv_fields(csv_columns()),
{
    reveal_strlit("kind,rule_id,rule_label,safety,path,size_bytes,file_count,age_days,recommended,selected,action,reason");
    reveal_strlit("kind");
    reveal_strlit("rule_id");
    reveal_strlit("rule_label");
    reveal_strlit("safety");
    reveal_strlit("path");
    reveal_strlit("size_bytes");
    reveal_strlit("file_count");
    reveal_strlit("age_days");
    reveal_strlit("recommended");
    reveal_strlit("selected");
    reveal_strlit("action");
    reveal_strlit("reason");
    let c = csv_columns();
    assert(csv_field("kind"@) == "kind"@);
    assert(csv_field("rule_id"@) == "rule_id"@);
    assert(csv_field("rule_label"@) == "rule_label"@);
    assert(csv_field("safety"@) == "safety"@);
    assert(csv_field("path"@) == "path"@);
    assert(csv_field("size_bytes"@) == "size_bytes"@);
    assert(csv_field("file_count"@) == "file_count"@);
    assert(csv_field("age_days"@) == "age_days"@);
    assert(csv_field("recommended"@) == "recommended"@);
    assert(csv_field("selected"@) == "selected"@);
    assert(csv_field("action"@) == "action"@);
    assert(csv_field("reason"@) == "reason"@);
    let c1 = c.take(1);
    assert(csv_fields(c1) =~= "kind"@);
    let c2 = c.take(2);
    assert(c2.drop_last() =~= c1);
    assert(csv_fields(c2) == csv_fields(c1).push(',') + "rule_id"@);
    let c3 = c.take(3);
    assert(c3.drop_last() =~= c2);
    assert(csv_fields(c3) == csv_fields(c2).push(',') + "rule_label"@);
    let c4 = c.take(4);
    assert(c4.drop_last() =~= c3);
    assert(csv_fields(c4) == csv_fields(c3).push(',') + "safety"@);
    let c5 = c.take(5);
    assert(c5.drop_last() =~= c4);
    assert(csv_fields(c5) == csv_fields(c4).push(',') + "path"@);
    let c6 = c.take(6);
    assert(c6.drop_last() =~= c5);
    assert(csv_fields(c6) == csv_fields(c5).push(',') + "size_bytes"@);
    let c7 = c.take(7);
    assert(c7.drop_last() =~= c6);
    assert(csv_fields(c7) == csv_fields(c6).push(',') + "file_count"@);
    let c8 = c.take(8);
    assert(c8.drop_last() =~= c7);
    assert(csv_fields(c8) == csv_fields(c7).push(',') + "age_days"@);
    let c9 = c.take(9);
    assert(c9.drop_last() =~= c8);
    assert(csv_fields(c9) == csv_fields(c8).push(',') + "recommended"@);
    let c10 = c.take(10);
    assert(c10.drop_last() =~= c9);
    assert(csv_fields(c10) == csv_fields(c9).push(',') + "selected"@);
    let c11 = c.take(11);
    assert(c11.drop_last() =~= c10);
    assert(csv_fields(c11) == csv_fields(c10).push(',') + "action"@);
    let c12 = c.take(12);
    assert(c12.drop_last() =~= c11);
    assert(csv_fields(c12) == csv_fields(c11).push(',') + "reason"@);
    assert(c12 =~= c);
    assert(CSV_HEADER@ =~= csv_fields(c12));
}

/// Exported text reads back as the names of the columns and the rows that it
/// was made of.
pub proof fn exported_csv_reads_back(rows: Seq<Seq<Seq<char>>>)
    requires
        forall|i: int| 0 <= i < rows.len() ==> (#[trigger] rows[i]).len() > 0,
    ensures
        read_csv(csv_text(rows)) == seq![csv_columns()] + rows,
{
    header_names_columns();
    let all = seq![csv_columns()] + rows;
    csv_rows_with_first(csv_columns(), rows);
    assert forall|i: int| 0 <= i < all.len() implies (#[trigger] all[i]).len() > 0 by {
        if i > 0 {
            assert(all[i] == rows[i - 1]);
        }
    }
    csv_reads_back(all);
    assert(csv_text(rows) =~= csv_rows(all));
}

proof fn csv_rows_with_first(first: Seq<Seq<char>>, rows: Seq<Seq<Seq<char>>>)
    ensures
        csv_rows(seq![first] + rows) == csv_row(first) + csv_rows(rows),
    decreases rows.len(),
{
    let all = seq![first] + rows;
    if rows.len() == 0 {
        assert(all.drop_last() =~= Seq::<Seq<Seq<char>>>::empty());
        assert(csv_rows(all.drop_last()) =~= Seq::<char>::empty());
        assert(csv_rows(all) =~= csv_row(first) + csv_rows(rows));
    } else {
        csv_rows_with_first(first, rows.drop_last());
        assert(all.drop_last() =~= seq![first] + rows.drop_last());
        assert(csv_rows(all) =~= csv_row(first) + csv_rows(rows));
    }
}

// ---- Documents ----

/// One entry of an exported scan.
#[derive(Debug)]
pub struct ScanItemExport {
    pub rule_id: String,
    pub rule_label: String,
    pub safety: Safety,
    pub path: FilePath,
    pub size: u64,
    pub file_count: u64,
    pub age_days: Option<u64>,
    pub recommended: bool,
    pub selected: bool,
    pub reason: String,
}

/// The sums of an exported scan.
#[derive(Debug, Clone, Copy, PartialEq, Eq, Structural)]
pub struct ScanSummary {
    pub item_count: usize,
    pub selected_count: usize,
    pub total_size: u64,
    pub selected_size: u64,
}

/// An exported scan. The version of the tool is added when it is written out.
#[derive(Debug)]
pub struct ScanExport {
    pub schema_version: u32,
    pub generated_at_secs: u64,
    pub kind: &'static str,
    pub summary: ScanSummary,
    pub items: Vec<ScanItemExport>,
    pub by_rule: Vec<CategoryBreakdown>,
    pub by_size_bucket: Vec<BucketBreakdown>,
}

/// One item of an exported plan.
#[derive(Debug)]
pub struct PlanItemExport {
    pub rule_id: String,
    pub rule_label: String,
    pub safety: Safety,
    pub path: FilePath,
    pub size: u64,
    pub file_count: u64,
    pub action: DeleteAction,
}

/// One excluded entry of an exported plan.
#[derive(Debug)]
pub struct ExcludedItemExport {
    pub rule_id: String,
    pub path: FilePath,
    pub size: u64,
    pub reason: ExclusionReason,
}

/// The sums of an exported plan.
#[derive(Debug, Clone, Copy, PartialEq, Eq, Structural)]
pub struct PlanSummary {
    pub item_count: usize,
    pub total_size: u64,
    pub total_file_count: u64,
}

/// An exported plan. The version of the tool is added when it is written out.
#[derive(Debug)]
pub struct PlanExport {
    pub schema_version: u32,
    pub generated_at_secs: u64,
    pub kind: &'static str,
    pub dry_run: bool,
    pub dry_run_reason: Option<DryRunReason>,
    pub method: DeleteMethod,
    pub summary: PlanSummary,
    pub items: Vec<PlanItemExport>,
    pub excluded: Vec<ExcludedItemExport>,
    pub by_rule: Vec<CategoryBreakdown>,
    pub by_size_bucket: Vec<BucketBreakdown>,
}

/// `x` shows the entry `e`.
pub open spec fn shows_entry(x: ScanItemExport, e: ScanEntryView, rules: Seq<RuleView>) -> bool {
    &&& x.rule_id@ == e.rule_id
    &&& x.rule_label@ == label_of(rules, e.rule_id)
    &&& x.safety == safety_of(rules, e.rule_id)
    &&& x.path@ == e.path
    &&& x.size == e.size
    &&& x.file_count == e.file_count
    &&& x.age_days == e.age_days
    &&& x.recommended == e.recommended
    &&& x.selected == e.selected
    &&& x.reason@ == e.reason
}

/// `x` shows the planned deletion `item`.
pub open spec fn shows_item(
    x: PlanItemExport,
    item: PlannedDeletionView,
    rules: Seq<RuleView>,
) -> bool {
    &&& x.rule_id@ == item.rule_id
    &&& x.rule_label@ == label_of(rules, item.rule_id)
    &&& x.safety == safety_of(rules, item.rule_id)
    &&& x.path@ == item.path
    &&& x.size == item.size
    &&& x.file_count == item.file_count
    &&& x.action == item.action
}

/// `x` shows the excluded entry `e`.
pub open spec fn shows_excluded(x: ExcludedItemExport, e: ExcludedEntryView) -> bool {
    &&& x.rule_id@ == e.rule_id
    &&& x.path@ == e.path
    &&& x.size == e.size
    &&& x.reason == e.reason
}

/// The size of an entry.
pub open spec fn entry_size() -> spec_fn(ScanEntryView) -> nat {
    |e: ScanEntryView| e.size as nat
}

/// One for a selected entry.
pub open spec fn is_selected() -> spec_fn(ScanEntryView) -> nat {
    |e: ScanEntryView|
        if e.selected {
            1nat
        } else {
            0nat
        }
}

/// The size of a selected entry.
pub open spec fn selected_size() -> spec_fn(ScanEntryView) -> nat {
    |e: ScanEntryView|
        if e.selected {
            e.size as nat
        } else {
            0nat
        }
}

/// The breakdowns by rule and by size are those of `items`.
pub open spec fn are_breakdowns(
    categories: Seq<CategoryBreakdown>,
    buckets: Seq<BucketBreakdown>,
    items: Seq<crate::breakdown::BreakdownItemView>,
) -> bool {
    &&& are_categories(items, category_views(categories))
    &&& in_shown_order(category_views(categories))
    &&& buckets.len() == SizeBucket::in_order().len()
    &&& forall|k: int|
        0 <= k < buckets.len() ==> is_bucket_of(
            #[trigger] buckets[k],
            SizeBucket::in_order()[k],
            items,
        )
}

/// The sums over the entries can be counted.
pub open spec fn is_exportable(entries: Seq<ScanEntryView>) -> bool {
    total(entries, entry_size()) <= u64::MAX && are_countable(
        entries.filter_map(selected_item()),
    )
}

/// A scan as a document of the time `now_secs`: its entries with their rules, its
/// sums, and where the selected space goes.
pub fn scan_export(entries: &[ScanEntry], rules: &[Rule], now_secs: u64) -> (r: ScanExport)
    requires
        is_exportable(entry_views(entries@)),
    ensures
        r.schema_version == SCHEMA_VERSION,
        r.generated_at_secs == now_secs,
        r.kind@ == "scan"@,
        r.items@.len() == entries@.len(),
        forall|i: int|
            0 <= i < entries@.len() ==> shows_entry(
                #[trigger] r.items@[i],
                entries@[i]@,
                rule_views(rules@),
            ),
        r.summary.item_count == entries@.len(),
        r.summary.selected_count == total(entry_views(entries@), is_selected()),
        r.summary.total_size == total(entry_views(entries@), entry_size()),
        r.summary.selected_size == total(entry_views(entries@), selected_size()),
        are_breakdowns(
            r.by_rule@,
            r.by_size_bucket@,
            entry_views(entries@).filter_map(selected_item()),
        ),
{
    let ghost all = entry_views(entries@);
    let mut items: Vec<ScanItemExport> = Vec::new();
    let mut selected_count: usize = 0;
    let mut sum: u64 = 0;
    let mut selected_sum: u64 = 0;
    let mut i: usize = 0;
    while i < entries.len()
        invariant
            i <= entries@.len(),
            all == entry_views(entries@),
            total(all, entry_size()) <= u64::MAX,
            items@.len() == i,
            forall|j: int|
                0 <= j < i ==> shows_entry(
                    #[trigger] items@[j],
                    entries@[j]@,
                    rule_views(rules@),
                ),
            selected_count <= i,
            selected_count == total(all.take(i as int), is_selected()),
            sum == total(all.take(i as int), entry_size()),
            selected_sum == total(all.take(i as int), selected_size()),
        decreases entries@.len() - i,
    {
        let e = &entries[i];
        proof {
            assert(all[i as int] == e@);
            total_take(all, i as int, is_selected());
            total_take(all, i as int, entry_size());
            total_take(all, i as int, selected_size());
            crate::seqs::total_monotone(all, selected_size(), entry_size());
        }
        let (rule_label, safety) = rule_lookup(rules, e.rule_id.as_str());
        if e.selected {
            selected_count = selected_count + 1;
            selected_sum = selected_sum + e.size;
        }
        sum = sum + e.size;
        items.push(
            ScanItemExport {
                rule_id: e.rule_id.clone(),
                rule_label,
                safety,
                path: e.path.clone(),
                size: e.size,
                file_count: e.file_count,
                age_days: e.age_days,
                recommended: e.recommended,
                selected: e.selected,
                reason: e.reason.clone(),
            },
        );
        i = i + 1;
    }
    assert(all.take(i as int) =~= all);
    let counted = from_selected_entries(entries);
    ScanExport {
        schema_version: SCHEMA_VERSION,
        generated_at_secs: now_secs,
        kind: "scan",
        summary: ScanSummary {
            item_count: entries.len(),
            selected_count,
            total_size: sum,
            selected_size: selected_sum,
        },
        items,
        by_rule: by_rule(counted.as_slice()),
        by_size_bucket: by_size_bucket(counted.as_slice()),
    }
}

/// A plan as a document of the time `now_secs`: how it deletes, what it deletes
/// and what not, its sums, and where the space goes.
pub fn plan_export(plan: &DeletePlan, rules: &[Rule], now_secs: u64) -> (r: PlanExport)
    requires
        plan@.size_fits(),
        plan@.files_fit(),
    ensures
        r.schema_version == SCHEMA_VERSION,
        r.generated_at_secs == now_secs,
        r.kind@ == "plan"@,
        r.dry_run == plan@.mode.is_dry_run(),
        r.dry_run_reason == plan@.mode.dry_run_reason,
        r.method == plan@.mode.method,
        r.summary.item_count == plan@.items.len(),
        r.summary.total_size == plan@.total_size(),
        r.summary.total_file_count == plan@.total_file_count(),
        r.items@.len() == plan@.items.len(),
        forall|i: int|
            0 <= i < plan@.items.len() ==> shows_item(
                #[trigger] r.items@[i],
                plan@.items[i],
                rule_views(rules@),
            ),
        r.excluded@.len() == plan@.excluded.len(),
        forall|i: int|
            0 <= i < plan@.excluded.len() ==> shows_excluded(
                #[trigger] r.excluded@[i],
                plan@.excluded[i],
            ),
        are_breakdowns(
            r.by_rule@,
            r.by_size_bucket@,
            plan@.items.map_values(planned_item()),
        ),
{
    let given = plan.items();
    let mut items: Vec<PlanItemExport> = Vec::new();
    let mut i: usize = 0;
    while i < given.len()
        invariant
            i <= given@.len(),
            plan@.items == item_views(given@),
            items@.len() == i,
            forall|j: int|
                0 <= j < i ==> shows_item(
                    #[trigger] items@[j],
                    plan@.items[j],
                    rule_views(rules@),
                ),
        decreases given@.len() - i,
    {
        let item = &given[i];
        assert(plan@.items[i as int] == item@);
        let (rule_label, safety) = rule_lookup(rules, item.rule_id.as_str());
        items.push(
            PlanItemExport {
                rule_id: item.rule_id.clone(),
                rule_label,
                safety,
                path: item.path.clone(),
                size: item.size,
                file_count: item.file_count,
                action: item.action,
            },
        );
        i = i + 1;
    }
    let refused = plan.excluded();
    let mut excluded: Vec<ExcludedItemExport> = Vec::new();
    let mut k: usize = 0;
    while k < refused.len()
        invariant
            k <= refused@.len(),
            plan@.excluded == excluded_views(refused@),
            excluded@.len() == k,
            forall|j: int|
                0 <= j < k ==> shows_excluded(#[trigger] excluded@[j], plan@.excluded[j]),
        decreases refused@.len() - k,
    {
        let e = &refused[k];
        assert(plan@.excluded[k as int] == e@);
        excluded.push(
            ExcludedItemExport {
                rule_id: e.rule_id.clone(),
                path: e.path.clone(),
                size: e.size,
                reason: e.reason,
            },
        );
        k = k + 1;
    }
    let counted = from_plan(plan);
    proof {
        crate::breakdown::plan_breakdown_covers_the_plan(plan@);
    }
    PlanExport {
        schema_version: SCHEMA_VERSION,
        generated_at_secs: now_secs,
        kind: "plan",
        dry_run: plan.mode().is_dry_run(),
        dry_run_reason: plan.mode().dry_run_reason(),
        method: plan.mode().method(),
        summary: PlanSummary {
            item_count: plan.item_count(),
            total_size: plan.total_size(),
            total_file_count: plan.total_file_count(),
        },
        items,
        excluded,
        by_rule: by_rule(counted.as_slice()),
        by_size_bucket: by_size_bucket(counted.as_slice()),
    }
}

// ---- What is exported ----

/// The row of an entry tells, column by column, its rule, the rule's label and
/// safety, its place, its size, files and age, whether it is recommended and
/// selected, and why.
pub proof fn what_the_row_of_an_entry_tells(e: ScanEntryView, rules: Seq<RuleView>)
    ensures
        ({
            let row = scan_row(e, rules);
            &&& row.len() == csv_columns().len()
            &&& row[0] == "scan"@
            &&& row[1] == e.rule_id
            &&& row[2] == label_of(rules, e.rule_id)
            &&& row[3] == safety_text(safety_of(rules, e.rule_id))
            &&& row[4] == e.path.text
            &&& crate::text::value_of(row[5]) == e.size
            &&& crate::text::value_of(row[6]) == e.file_count
            &&& e.age_days is Some ==> crate::text::value_of(row[7]) == e.age_days->0
            &&& row[7].len() == 0 <==> e.age_days is None
            &&& row[8] == (if e.recommended {
                "true"@
            } else {
                "false"@
            })
            &&& row[9] == (if e.selected {
                "true"@
            } else {
                "false"@
            })
            &&& row[10].len() == 0
            &&& row[11] == e.reason
        }),
{
    crate::text::digits_have_the_value(e.size as nat);
    crate::text::digits_have_the_value(e.file_count as nat);
    if let Some(days) = e.age_days {
        crate::text::digits_have_the_value(days as nat);
    }
}

/// The row of a planned deletion tells its rule, the rule's label and safety, its
/// place, its size and files, and what is done with it.
pub proof fn what_the_row_of_a_deletion_tells(item: PlannedDeletionView, rules: Seq<RuleView>)
    ensures
        ({
            let row = plan_row(item, rules);
            &&& row.len() == csv_columns().len()
            &&& row[0] == "plan"@
            &&& row[1] == item.rule_id
            &&& row[2] == label_of(rules, item.rule_id)
            &&& row[3] == safety_text(safety_of(rules, item.rule_id))
            &&& row[4] == item.path.text
            &&& crate::text::value_of(row[5]) == item.size
            &&& crate::text::value_of(row[6]) == item.file_count
            &&& row[7].len() == 0
            &&& row[8].len() == 0
            &&& row[9].len() == 0
            &&& item.action is ToTrash ==> row[10] == "ToTrash"@
            &&& item.action is RemovePath ==> row[10] == "RemovePath"@
            &&& item.action is EmptyContainer ==> row[10] == "EmptyContainer"@
            &&& row[11].len() == 0
        }),
{
    crate::text::digits_have_the_value(item.size as nat);
    crate::text::digits_have_the_value(item.file_count as nat);
}

/// The row of an entry that is left out tells its rule, the rule's label and
/// safety, its place, its size, and why it is left out.
pub proof fn what_the_row_of_an_exclusion_tells(e: ExcludedEntryView, rules: Seq<RuleView>)
    ensures
        ({
            let row = excluded_row(e, rules);
            &&& row.len() == csv_columns().len()
            &&& row[0] == "excluded"@
            &&& row[1] == e.rule_id
            &&& row[2] == label_of(rules, e.rule_id)
            &&& row[3] == safety_text(safety_of(rules, e.rule_id))
            &&& row[4] == e.path.text
            &&& crate::text::value_of(row[5]) == e.size
            &&& forall|c: int| 6 <= c < 11 ==> (#[trigger] row[c]).len() == 0
            &&& row[11] == exclusion_text(e.reason)
        }),
{
    crate::text::digits_have_the_value(e.size as nat);
}

/// Safeties and reasons are written by their names, no two of them alike.
pub proof fn names_tell_safeties_and_reasons_apart(a: Safety, b: Safety)
    ensures
        safety_text(a) == safety_text(b) ==> a == b,
        safety_text(Safety::Safe) == "Safe"@,
        safety_text(Safety::Caution) == "Caution"@,
        safety_text(Safety::Review) == "Review"@,
        exclusion_text(ExclusionReason::NotSelected) == "NotSelected"@,
        exclusion_text(ExclusionReason::UnknownRule) == "UnknownRule"@,
        exclusion_text(ExclusionReason::NeedsAdmin) == "NeedsAdmin"@,
        exclusion_text(ExclusionReason::OutsideRuleBase) == "OutsideRuleBase"@,
        exclusion_text(ExclusionReason::UnresolvedBase) == "UnresolvedBase"@,
        exclusion_text(ExclusionReason::RequiresPermanent) == "RequiresPermanent"@,
{
    reveal_strlit("Safe");
    reveal_strlit("Caution");
    reveal_strlit("Review");
    assert("Safe"@.len() == 4);
    assert("Caution"@.len() == 7);
    assert("Review"@.len() == 6);
}

/// The label and the safety are those of the last rule with the id; without one
/// the id stands for the label, and the entry is to be looked at.
pub proof fn rules_give_labels_and_safeties(rules: Seq<RuleView>, id: Seq<char>, k: int)
    requires
        -1 <= k < rules.len(),
        k >= 0 ==> rules[k].id == id,
        forall|j: int| k < j < rules.len() ==> (#[trigger] rules[j]).id != id,
    ensures
        k >= 0 ==> label_of(rules, id) == rules[k].label && safety_of(rules, id)
            == rules[k].safety,
        k == -1 ==> label_of(rules, id) == id && safety_of(rules, id) == Safety::Review,
    decreases rules.len(),
{
    if k < rules.len() - 1 {
        let front = rules.drop_last();
        assert(rules.last() == rules[rules.len() - 1]);
        assert forall|j: int| k < j < front.len() implies (#[trigger] front[j]).id != id by {
            assert(front[j] == rules[j]);
        }
        rules_give_labels_and_safeties(front, id, k);
    }
}

/// Entries have a row each, in their order; of a plan the deletions come first.
pub proof fn rows_stand_in_order(
    entries: Seq<ScanEntryView>,
    plan: DeletePlanView,
    rules: Seq<RuleView>,
    i: int,
)
    ensures
        scan_rows(entries, rules).len() == entries.len(),
        0 <= i < entries.len() ==> scan_rows(entries, rules)[i] == scan_row(entries[i], rules),
        plan_rows(plan, rules).len() == plan.items.len() + plan.excluded.len(),
        0 <= i < plan.items.len() ==> plan_rows(plan, rules)[i] == plan_row(plan.items[i], rules),
        0 <= i < plan.excluded.len() ==> plan_rows(plan, rules)[plan.items.len() + i]
            == excluded_row(plan.excluded[i], rules),
{
}

/// Each entry of a scan adds its size to the total, and where it is selected
/// itself and its size to what is selected.
pub proof fn what_a_scan_export_counts(entries: Seq<ScanEntryView>, entry: ScanEntryView)
    ensures
        ({
            let more = entries.push(entry);
            &&& total(more, entry_size()) == total(entries, entry_size()) + entry.size
            &&& entry.selected ==> total(more, is_selected()) == total(entries, is_selected()) + 1
                && total(more, selected_size()) == total(entries, selected_size()) + entry.size
            &&& !entry.selected ==> total(more, is_selected()) == total(entries, is_selected())
                && total(more, selected_size()) == total(entries, selected_size())
            &&& entries.len() == 0 ==> total(entries, entry_size()) == 0 && total(
                entries,
                is_selected(),
            ) == 0 && total(entries, selected_size()) == 0
        }),
{
    crate::seqs::total_push(entries, entry, entry_size());
    crate::seqs::total_push(entries, entry, is_selected());
    crate::seqs::total_push(entries, entry, selected_size());
}

/// The rows of a table and the items of a document tell the same of an entry.
pub proof fn both_formats_tell_the_same(
    x: ScanItemExport,
    e: ScanEntryView,
    rules: Seq<RuleView>,
)
    requires
        shows_entry(x, e, rules),
    ensures
        ({
            let row = scan_row(e, rules);
            &&& x.rule_id@ == row[1] && x.rule_id@ == e.rule_id
            &&& x.rule_label@ == row[2]
            &&& safety_text(x.safety) == row[3]
            &&& x.path@.text == row[4] && x.path@ == e.path
            &&& x.size == crate::text::value_of(row[5]) && x.size == e.size
            &&& x.file_count == crate::text::value_of(row[6]) && x.file_count == e.file_count
            &&& x.age_days is None <==> row[7].len() == 0
            &&& x.age_days is Some ==> x.age_days->0 == crate::text::value_of(row[7])
            &&& flag_text(x.recommended) == row[8] && x.recommended == e.recommended
            &&& flag_text(x.selected) == row[9] && x.selected == e.selected
            &&& x.reason@ == row[11] && x.reason@ == e.reason
        }),
{
    what_the_row_of_an_entry_tells(e, rules);
}

/// The rows of a table and the items of a document tell the same of a plan.
pub proof fn both_formats_tell_the_same_of_a_plan(
    x: PlanItemExport,
    item: PlannedDeletionView,
    y: ExcludedItemExport,
    e: ExcludedEntryView,
    rules: Seq<RuleView>,
)
    requires
        shows_item(x, item, rules),
        shows_excluded(y, e),
    ensures
        ({
            let row = plan_row(item, rules);
            &&& x.rule_id@ == row[1] && x.rule_id@ == item.rule_id
            &&& x.rule_label@ == row[2]
            &&& safety_text(x.safety) == row[3]
            &&& x.path@.text == row[4] && x.path@ == item.path
            &&& x.size == crate::text::value_of(row[5]) && x.size == item.size
            &&& x.file_count == crate::text::value_of(row[6]) && x.file_count == item.file_count
            &&& action_text(x.action) == row[10] && x.action == item.action
        }),
        ({
            let row = excluded_row(e, rules);
            &&& y.rule_id@ == row[1] && y.rule_id@ == e.rule_id
            &&& y.path@.text == row[4] && y.path@ == e.path
            &&& y.size == crate::text::value_of(row[5]) && y.size == e.size
            &&& exclusion_text(y.reason) == row[11] && y.reason == e.reason
        }),
{
    what_the_row_of_a_deletion_tells(item, rules);
    what_the_row_of_an_exclusion_tells(e, rules);
}

/// A field is written as it is unless it holds a comma, a quotation mark or a
/// line break; then it stands in quotation marks.
pub proof fn which_fields_are_quoted(value: Seq<char>)
    ensures
        ({
            let special = exists|i: int|
                0 <= i < value.len() && (#[trigger] value[i] == ',' || value[i] == '"' || value[i]
                    == '\n' || value[i] == '\r');
            &&& !special ==> csv_field(value) == value
            &&& special ==> csv_field(value).len() >= value.len() + 2 && csv_field(value)[0] == '"'
                && csv_field(value).last() == '"'
        }),
{
    if needs_csv_quotes(value) {
        let i = if value.contains(',') {
            value.index_of(',')
        } else if value.contains('"') {
            value.index_of('"')
        } else if value.contains('\n') {
            value.index_of('\n')
        } else {
            value.index_of('\r')
        };
        assert(value[i] == ',' || value[i] == '"' || value[i] == '\n' || value[i] == '\r');
        doubling_loses_nothing(value);
    } else {
        assert forall|i: int| 0 <= i < value.len() implies !(#[trigger] value[i] == ',' || value[i]
            == '"' || value[i] == '\n' || value[i] == '\r') by {
            assert(value.contains(value[i]));
        }
    }
}

proof fn doubling_loses_nothing(s: Seq<char>)
    ensures
        doubled(s).len() >= s.len(),
    decreases s.len(),
{
    if s.len() > 0 {
        doubling_loses_nothing(s.drop_last());
    }
}

} // verus!
