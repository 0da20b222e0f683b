//! A closer look at what a scan found: files in use and duplicate files.
//!
//! It comes between the scan and the recommendation, which then needs to look
//! at no file itself.

use crate::entry::{entry_views, DuplicateInfo, ScanEntry, ScanEntryView};
use crate::path::parts_before;
use crate::platform::Platform;
use crate::seqs::{total, total_take};
use vstd::prelude::*;

verus! {

/// The largest file whose content is compared. A larger one is left out as a
/// whole: two files that agree in part are not duplicates.
pub const MAX_HASH_BYTES: u64 = 67_108_864;

// ---- Files in use ----

/// The entry with the answer to whether it is in use. A directory, which stands
/// for many files, is not asked about.
pub open spec fn with_in_use(entry: ScanEntryView, answer: Option<bool>) -> ScanEntryView {
    if entry.file_count == 1 {
        ScanEntryView { in_use: answer, ..entry }
    } else {
        entry
    }
}

/// `after` are the entries `before` with their answers.
pub open spec fn answers_recorded(
    before: Seq<ScanEntryView>,
    answers: Seq<Option<bool>>,
    after: Seq<ScanEntryView>,
) -> bool {
    &&& answers.len() == before.len()
    &&& after.len() == before.len()
    &&& forall|i: int|
        0 <= i < before.len() ==> (#[trigger] after[i]) == with_in_use(before[i], answers[i])
}

/// Records whether each entry is in use.
pub fn set_in_use(entries: &mut Vec<ScanEntry>, answers: &Vec<Option<bool>>)
    requires
        answers@.len() == old(entries)@.len(),
    ensures
        answers_recorded(entry_views(old(entries)@), answers@, entry_views(final(entries)@)),
{
    let ghost before = entry_views(entries@);
    let n: usize = entries.len();
    let mut i: usize = 0;
    while i < n
        invariant
            i <= n,
            n == entries@.len(),
            n == before.len(),
            n == answers@.len(),
            forall|j: int|
                0 <= j < i ==> (#[trigger] entries@[j])@ == with_in_use(before[j], answers@[j]),
            forall|j: int| i <= j < n ==> (#[trigger] entries@[j])@ == before[j],
        decreases n - i,
    {
        if entries[i].file_count == 1 {
            let mut entry = entries[i].clone();
            entry.in_use = answers[i];
            entries.set(i, entry);
        }
        i = i + 1;
    }
}

/// `answers` can be what the platform says of the single files among
/// `entries`.
pub open spec fn are_answers_of<P: Platform + ?Sized>(
    platform: &P,
    entries: Seq<ScanEntryView>,
    answers: Seq<Option<bool>>,
) -> bool {
    &&& answers.len() == entries.len()
    &&& forall|i: int|
        0 <= i < entries.len() && entries[i].file_count == 1 ==> platform.may_answer(
            entries[i].path,
            #[trigger] answers[i],
        )
}

/// Asks the platform about each single file and records the answers. Whatever
/// they are, nothing else changes.
pub fn annotate_in_use<P: Platform + ?Sized>(platform: &P, entries: &mut Vec<ScanEntry>)
    ensures
        exists|answers: Seq<Option<bool>>| #[trigger]
            are_answers_of(platform, entry_views(old(entries)@), answers) && answers_recorded(
                entry_views(old(entries)@),
                answers,
                entry_views(final(entries)@),
            ),
{
    let ghost before = entry_views(entries@);
    let mut answers: Vec<Option<bool>> = Vec::new();
    let mut i: usize = 0;
    while i < entries.len()
        invariant
            i <= entries@.len(),
            answers@.len() == i,
            before == entry_views(entries@),
            forall|j: int|
                0 <= j < i && before[j].file_count == 1 ==> platform.may_answer(
                    before[j].path,
                    #[trigger] answers@[j],
                ),
        decreases entries@.len() - i,
    {
        assert(before[i as int] == entries@[i as int]@);
        let answer = if entries[i].file_count == 1 {
            platform.is_file_in_use(&entries[i].path)
        } else {
            None
        };
        answers.push(answer);
        i = i + 1;
    }
    assert(are_answers_of(platform, before, answers@));
    set_in_use(entries, &answers);
}

// ---- Duplicate files ----

/// The 64-bit XXH3 hash of `data`.
pub uninterp spec fn xxh3_64(data: Seq<u8>) -> u64;

/// `twox_hash::XxHash3_64::oneshot`: the 64-bit XXH3 hash of all of `data` with
/// the default seed and secret, which depends on `data` alone.
#[verifier::external_body]
fn xxh3_oneshot(data: &[u8]) -> (r: u64)
    ensures
        r == xxh3_64(data@),
{
    twox_hash::XxHash3_64::oneshot(data)
}

/// The hash of a file with the content `contents`; `None` where it could not be
/// read.
pub fn hash_file(contents: Option<&[u8]>) -> (r: Option<u64>)
    ensures
        r == (match contents {
            Some(data) => Some(xxh3_64(data@)),
            None => None,
        }),
{
    match contents {
        Some(data) => Some(xxh3_oneshot(data)),
        None => None,
    }
}

/// The entry is a single file whose content can be compared.
pub open spec fn is_comparable(entry: ScanEntryView) -> bool {
    entry.file_count == 1 && 0 < entry.size <= MAX_HASH_BYTES
}

fn comparable(entry: &ScanEntry) -> (r: bool)
    ensures
        r == is_comparable(entry@),
{
    entry.file_count == 1 && entry.size > 0 && entry.size <= MAX_HASH_BYTES
}

/// The entry `i` has to be hashed: another entry that can be compared has the
/// same size.
pub open spec fn needs_hash(entries: Seq<ScanEntryView>, i: int) -> bool {
    &&& is_comparable(entries[i])
    &&& exists|j: int|
        0 <= j < entries.len() && j != i && is_comparable(#[trigger] entries[j]) && entries[j].size
            == entries[i].size
}

/// Which entries have to be hashed. No other file needs to be read.
pub fn entries_to_hash(entries: &Vec<ScanEntry>) -> (r: Vec<bool>)
    ensures
        r@.len() == entries@.len(),
        forall|i: int|
            0 <= i < r@.len() ==> #[trigger] r@[i] == needs_hash(entry_views(entries@), i),
{
    let ghost all = entry_views(entries@);
    let mut r: Vec<bool> = Vec::new();
    let mut i: usize = 0;
    while i < entries.len()
        invariant
            i <= entries@.len(),
            all == entry_views(entries@),
            r@.len() == i,
            forall|k: int| 0 <= k < i ==> #[trigger] r@[k] == needs_hash(all, k),
        decreases entries@.len() - i,
    {
        let mut found = false;
        assert(all[i as int] == entries@[i as int]@);
        if comparable(&entries[i]) {
            let mut j: usize = 0;
            while j < entries.len() && !found
                invariant
                    i < entries@.len(),
                    j <= entries@.len(),
                    all == entry_views(entries@),
                    is_comparable(all[i as int]),
                    found ==> needs_hash(all, i as int),
                    !found ==> forall|k: int|
                        0 <= k < j && k != i && is_comparable(#[trigger] all[k]) ==> all[k].size
                            != all[i as int].size,
                decreases entries@.len() - j,
            {
                assert(all[j as int] == entries@[j as int]@);
                assert(all[i as int] == entries@[i as int]@);
                if j != i && comparable(&entries[j]) && entries[j].size == entries[i].size {
                    found = true;
                }
                j = j + 1;
            }
        }
        r.push(found);
        i = i + 1;
    }
    r
}

/// What two entries share when they are duplicates: size and hash. `None` for
/// an entry that is not compared.
pub open spec fn content_key(
    entries: Seq<ScanEntryView>,
    hashes: Seq<Option<u64>>,
    i: int,
) -> Option<(u64, u64)> {
    match hashes[i] {
        Some(hash) => if is_comparable(entries[i]) {
            Some((entries[i].size, hash))
        } else {
            None
        },
        None => None,
    }
}

/// The keys of all entries.
pub open spec fn content_keys(
    entries: Seq<ScanEntryView>,
    hashes: Seq<Option<u64>>,
) -> Seq<Option<(u64, u64)>> {
    Seq::new(entries.len(), |i: int| content_key(entries, hashes, i))
}

/// One for the key `key`.
pub open spec fn one_like(key: Option<(u64, u64)>) -> spec_fn(Option<(u64, u64)>) -> nat {
    |k: Option<(u64, u64)>|
        if k == key {
            1nat
        } else {
            0nat
        }
}

/// How many entries share the key of the entry `i`.
pub open spec fn group_len(keys: Seq<Option<(u64, u64)>>, i: int) -> nat {
    total(keys, one_like(keys[i]))
}

/// The entry `i` has a duplicate.
pub open spec fn has_duplicate(keys: Seq<Option<(u64, u64)>>, i: int) -> bool {
    keys[i] is Some && group_len(keys, i) >= 2
}

/// The entry `i` is the first of its group of duplicates.
pub open spec fn starts_group(keys: Seq<Option<(u64, u64)>>, i: int) -> bool {
    &&& has_duplicate(keys, i)
    &&& forall|j: int| 0 <= j < i ==> #[trigger] keys[j] != keys[i]
}

/// How many groups of duplicates start before `n`.
pub open spec fn groups_before(keys: Seq<Option<(u64, u64)>>, n: int) -> nat
    decreases n,
{
    if n <= 0 {
        0
    } else {
        groups_before(keys, n - 1) + (if starts_group(keys, n - 1) {
            1nat
        } else {
            0nat
        })
    }
}

/// `a` is older than `b`. An unknown age is younger than any known one.
pub open spec fn is_older(a: Option<u64>, b: Option<u64>) -> bool {
    match (a, b) {
        (Some(x), Some(y)) => x > y,
        (Some(_), None) => true,
        _ => false,
    }
}

/// The entry `i` is rather kept than the entry `j`: it is older, or as old with
/// a path that comes first, or it is the later one of two with the same path.
pub open spec fn outranks(entries: Seq<ScanEntryView>, i: int, j: int) -> bool {
    let a = entries[i];
    let b = entries[j];
    is_older(a.age_days, b.age_days) || (a.age_days == b.age_days && (parts_before(
        a.path.parts,
        b.path.parts,
    ) || (a.path.parts == b.path.parts && j < i)))
}

/// The entry `i` is the one of its group to keep.
pub open spec fn is_kept(
    entries: Seq<ScanEntryView>,
    keys: Seq<Option<(u64, u64)>>,
    i: int,
) -> bool {
    forall|j: int|
        0 <= j < keys.len() && j != i && #[trigger] keys[j] == keys[i] ==> outranks(entries, i, j)
}

/// What is said of the duplicates of the entry `i`, whose group starts at `first`.
pub open spec fn is_duplicate_info(
    info: DuplicateInfo,
    entries: Seq<ScanEntryView>,
    keys: Seq<Option<(u64, u64)>>,
    i: int,
    first: int,
) -> bool {
    &&& 0 <= first <= i
    &&& keys[first] == keys[i]
    &&& starts_group(keys, first)
    &&& info.group_id == groups_before(keys, first)
    &&& info.group_size == group_len(keys, i)
    &&& info.is_primary == is_kept(entries, keys, i)
}

/// `after` is the entry `i` of `before` with what is known of its duplicates.
pub open spec fn is_annotated(
    before: Seq<ScanEntryView>,
    keys: Seq<Option<(u64, u64)>>,
    i: int,
    after: ScanEntryView,
) -> bool {
    if has_duplicate(keys, i) {
        &&& after == (ScanEntryView { duplicate: after.duplicate, ..before[i] })
        &&& after.duplicate is Some
        &&& exists|first: int| #[trigger]
            is_duplicate_info(after.duplicate->0, before, keys, i, first)
    } else {
        after == before[i]
    }
}

fn older(a: Option<u64>, b: Option<u64>) -> (r: bool)
    ensures
        r == is_older(a, b),
{
    match (a, b) {
        (Some(x), Some(y)) => x > y,
        (Some(_), None) => true,
        _ => false,
    }
}

fn same_age(a: Option<u64>, b: Option<u64>) -> (r: bool)
    ensures
        r == (a == b),
{
    match (a, b) {
        (Some(x), Some(y)) => x == y,
        (None, None) => true,
        _ => false,
    }
}

fn ranks_over(entries: &Vec<ScanEntry>, i: usize, j: usize) -> (r: bool)
    requires
        i < entries@.len(),
        j < entries@.len(),
    ensures
        r == outranks(entry_views(entries@), i as int, j as int),
{
    let a = &entries[i];
    let b = &entries[j];
    assert(entry_views(entries@)[i as int] == a@);
    assert(entry_views(entries@)[j as int] == b@);
    older(a.age_days, b.age_days) || (same_age(a.age_days, b.age_days) && (a.path.is_before(&b.path)
        || (a.path.same_place(&b.path) && j < i)))
}

fn keys_of(entries: &Vec<ScanEntry>, hashes: &Vec<Option<u64>>) -> (r: Vec<Option<(u64, u64)>>)
    requires
        hashes@.len() == entries@.len(),
    ensures
        r@ == content_keys(entry_views(entries@), hashes@),
{
    let ghost all = entry_views(entries@);
    let mut r: Vec<Option<(u64, u64)>> = Vec::new();
    let mut i: usize = 0;
    while i < entries.len()
        invariant
            i <= entries@.len(),
            hashes@.len() == entries@.len(),
            all == entry_views(entries@),
            r@.len() == i,
            forall|j: int| 0 <= j < i ==> #[trigger] r@[j] == content_key(all, hashes@, j),
        decreases entries@.len() - i,
    {
        assert(all[i as int] == entries@[i as int]@);
        let key = match hashes[i] {
            Some(hash) => if comparable(&entries[i]) {
                Some((entries[i].size, hash))
            } else {
                None
            },
            None => None,
        };
        r.push(key);
        i = i + 1;
    }
    assert(r@ =~= content_keys(all, hashes@));
    r
}

fn same_key(a: Option<(u64, u64)>, b: Option<(u64, u64)>) -> (r: bool)
    ensures
        r == (a == b),
{
    match (a, b) {
        (Some(x), Some(y)) => x.0 == y.0 && x.1 == y.1,
        (None, None) => true,
        _ => false,
    }
}

fn count_like(keys: &Vec<Option<(u64, u64)>>, i: usize) -> (r: usize)
    requires
        i < keys@.len(),
    ensures
        r == group_len(keys@, i as int),
{
    let mut n: usize = 0;
    let mut j: usize = 0;
    while j < keys.len()
        invariant
            i < keys@.len(),
            j <= keys@.len(),
            n <= j,
            n == total(keys@.take(j as int), one_like(keys@[i as int])),
        decreases keys@.len() - j,
    {
        proof {
            total_take(keys@, j as int, one_like(keys@[i as int]));
        }
        if same_key(keys[j], keys[i]) {
            n = n + 1;
        }
        j = j + 1;
    }
    assert(keys@.take(j as int) =~= keys@);
    n
}

fn first_like(keys: &Vec<Option<(u64, u64)>>, i: usize) -> (r: usize)
    requires
        i < keys@.len(),
    ensures
        r <= i,
        keys@[r as int] == keys@[i as int],
        forall|j: int| 0 <= j < r ==> #[trigger] keys@[j] != keys@[i as int],
{
    let mut j: usize = 0;
    while !same_key(keys[j], keys[i])
        invariant
            j <= i < keys@.len(),
            forall|k: int| 0 <= k < j ==> #[trigger] keys@[k] != keys@[i as int],
        decreases i - j,
    {
        j = j + 1;
    }
    j
}

fn kept(entries: &Vec<ScanEntry>, keys: &Vec<Option<(u64, u64)>>, i: usize) -> (r: bool)
    requires
        keys@.len() == entries@.len(),
        i < keys@.len(),
    ensures
        r == is_kept(entry_views(entries@), keys@, i as int),
{
    let mut j: usize = 0;
    while j < keys.len()
        invariant
            keys@.len() == entries@.len(),
            i < keys@.len(),
            j <= keys@.len(),
            forall|k: int|
                0 <= k < j && k != i && #[trigger] keys@[k] == keys@[i as int] ==> outranks(
                    entry_views(entries@),
                    i as int,
                    k,
                ),
        decreases keys@.len() - j,
    {
        if j != i && same_key(keys[j], keys[i]) && !ranks_over(entries, i, j) {
            assert(keys@[j as int] == keys@[i as int]);
            return false;
        }
        j = j + 1;
    }
    true
}

proof fn groups_before_is_bounded(keys: Seq<Option<(u64, u64)>>, n: int)
    requires
        0 <= n,
    ensures
        groups_before(keys, n) <= n,
    decreases n,
{
    if n > 0 {
        groups_before_is_bounded(keys, n - 1);
    }
}

/// Marks the duplicates among `entries`, where `hashes` holds the hash of each
/// entry that was read. Two entries are duplicates when size and hash agree.
/// Groups are numbered in the order of their first entries. Nothing else
/// changes.
pub fn annotate_duplicates(entries: &mut Vec<ScanEntry>, hashes: &Vec<Option<u64>>)
    requires
        hashes@.len() == old(entries)@.len(),
    ensures
        final(entries)@.len() == old(entries)@.len(),
        forall|i: int|
            0 <= i < final(entries)@.len() ==> is_annotated(
                entry_views(old(entries)@),
                content_keys(entry_views(old(entries)@), hashes@),
                i,
                (#[trigger] final(entries)@[i])@,
            ),
{
    let ghost before = entry_views(entries@);
    let keys = keys_of(entries, hashes);
    let ghost k = keys@;
    let n: usize = entries.len();
    let mut infos: Vec<Option<DuplicateInfo>> = Vec::new();
    let mut ids: Vec<u64> = Vec::new();
    let mut next_group_id: u64 = 0;
    let mut i: usize = 0;
    while i < n
        invariant
            i <= n,
            n == entries@.len(),
            n == k.len(),
            k == keys@,
            before == entry_views(entries@),
            infos@.len() == i,
            ids@.len() == i,
            next_group_id == groups_before(k, i as int),
            next_group_id <= i,
            forall|j: int|
                0 <= j < i && starts_group(k, j) ==> #[trigger] ids@[j] == groups_before(k, j),
            forall|j: int|
                0 <= j < i ==> (#[trigger] infos@[j] is Some == has_duplicate(k, j)),
            forall|j: int|
                0 <= j < i && #[trigger] infos@[j] is Some ==> exists|first: int| #[trigger]
                    is_duplicate_info(infos@[j]->0, before, k, j, first),
        decreases n - i,
    {
        proof {
            groups_before_is_bounded(k, i + 1);
        }
        let ghost known = infos@;
        let group_size: usize = count_like(&keys, i);
        ids.push(next_group_id);
        if keys[i].is_some() && group_size >= 2 {
            let first: usize = first_like(&keys, i);
            assert(k[first as int] == k[i as int]);
            assert(group_len(k, first as int) == group_len(k, i as int));
            assert(starts_group(k, first as int));
            if first == i {
                next_group_id = next_group_id + 1;
            } else {
                assert(!starts_group(k, i as int)) by {
                    assert(k[first as int] == k[i as int]);
                }
            }
            let info = DuplicateInfo {
                group_id: ids[first],
                group_size,
                is_primary: kept(entries, &keys, i),
            };
            infos.push(Some(info));
            assert(is_duplicate_info(infos@[i as int]->0, before, k, i as int, first as int));
        } else {
            infos.push(None);
        }
        assert forall|j: int| 0 <= j <= i && #[trigger] infos@[j] is Some implies exists|
            first: int,
        | #[trigger] is_duplicate_info(infos@[j]->0, before, k, j, first) by {
            if j < i {
                assert(infos@[j] == known[j]);
                let first = choose|first: int| #[trigger]
                    is_duplicate_info(known[j]->0, before, k, j, first);
                assert(is_duplicate_info(infos@[j]->0, before, k, j, first));
            }
        }
        i = i + 1;
    }
    let mut i: usize = 0;
    while i < n
        invariant
            i <= n,
            n == entries@.len(),
            n == k.len(),
            n == infos@.len(),
            n == before.len(),
            forall|j: int|
                0 <= j < n ==> (#[trigger] infos@[j] is Some == has_duplicate(k, j)),
            forall|j: int|
                0 <= j < n && #[trigger] infos@[j] is Some ==> exists|first: int| #[trigger]
                    is_duplicate_info(infos@[j]->0, before, k, j, first),
            forall|j: int| 0 <= j < i ==> is_annotated(before, k, j, (#[trigger] entries@[j])@),
            forall|j: int| i <= j < n ==> (#[trigger] entries@[j])@ == before[j],
        decreases n - i,
    {
        match infos[i] {
            Some(info) => {
                assert(infos@[i as int] is Some);
                let mut entry = entries[i].clone();
                entry.duplicate = Some(info);
                entries.set(i, entry);
            },
            None => {
                assert(!has_duplicate(k, i as int)) by {
                    assert(infos@[i as int] is None);
                }
            },
        }
        i = i + 1;
    }
}

proof fn outranks_total(entries: Seq<ScanEntryView>, i: int, j: int)
    requires
        i != j,
    ensures
        outranks(entries, i, j) || outranks(entries, j, i),
{
    if entries[i].path.parts != entries[j].path.parts {
        crate::path::parts_before_total(entries[i].path.parts, entries[j].path.parts);
    }
}

proof fn outranks_transitive(entries: Seq<ScanEntryView>, a: int, b: int, c: int)
    requires
        outranks(entries, a, b),
        outranks(entries, b, c),
    ensures
        outranks(entries, a, c),
{
    let x = entries[a].path.parts;
    let y = entries[b].path.parts;
    let z = entries[c].path.parts;
    if parts_before(x, y) && parts_before(y, z) {
        crate::path::parts_before_transitive(x, y, z);
    }
}

/// Among the first `n` entries one of the group of `i` outranks all others.
proof fn kept_among(
    entries: Seq<ScanEntryView>,
    keys: Seq<Option<(u64, u64)>>,
    i: int,
    n: int,
) -> (k: int)
    requires
        0 <= i < n <= keys.len(),
    ensures
        0 <= k < n,
        keys[k] == keys[i],
        forall|j: int|
            0 <= j < n && j != k && #[trigger] keys[j] == keys[i] ==> outranks(entries, k, j),
    decreases n,
{
    let last = n - 1;
    if keys[last] != keys[i] {
        kept_among(entries, keys, i, last)
    } else if exists|j: int| 0 <= j < last && #[trigger] keys[j] == keys[i] {
        let other = choose|j: int| 0 <= j < last && #[trigger] keys[j] == keys[i];
        let k = kept_among(entries, keys, other, last);
        if outranks(entries, k, last) {
            k
        } else {
            outranks_total(entries, k, last);
            assert forall|j: int|
                0 <= j < n && j != last && #[trigger] keys[j] == keys[i] implies outranks(
                entries,
                last,
                j,
            ) by {
                if j != k {
                    outranks_transitive(entries, last, k, j);
                }
            }
            last
        }
    } else {
        last
    }
}

/// Every group has an entry to keep.
pub proof fn one_of_a_group_is_kept(
    entries: Seq<ScanEntryView>,
    keys: Seq<Option<(u64, u64)>>,
    i: int,
) -> (k: int)
    requires
        0 <= i < keys.len(),
    ensures
        0 <= k < keys.len(),
        keys[k] == keys[i],
        is_kept(entries, keys, k),
{
    kept_among(entries, keys, i, keys.len() as int)
}

/// The entry to keep is the oldest of its group.
pub proof fn the_kept_entry_is_the_oldest(
    entries: Seq<ScanEntryView>,
    keys: Seq<Option<(u64, u64)>>,
    i: int,
    j: int,
)
    requires
        0 <= i < keys.len(),
        0 <= j < keys.len(),
        keys[i] == keys[j],
        is_kept(entries, keys, i),
    ensures
        !is_older(entries[j].age_days, entries[i].age_days),
{
    if i != j {
        assert(outranks(entries, i, j));
    }
}

/// A group has one entry to keep at most.
pub proof fn one_of_a_group_is_kept_at_most(
    entries: Seq<ScanEntryView>,
    keys: Seq<Option<(u64, u64)>>,
    i: int,
    j: int,
)
    requires
        0 <= i < keys.len(),
        0 <= j < keys.len(),
        keys[i] == keys[j],
        is_kept(entries, keys, i),
        is_kept(entries, keys, j),
    ensures
        i == j,
{
    if i != j {
        assert(outranks(entries, i, j));
        assert(outranks(entries, j, i));
        if entries[i].age_days == entries[j].age_days {
            crate::path::parts_before_asymmetric(entries[i].path.parts, entries[j].path.parts);
        }
    }
}

// ---- What is found to be a duplicate ----

/// The entries `i` and `j` are single files of the same size, neither empty nor
/// above 64 MiB, that were read and have the same hash.
pub open spec fn have_same_content(
    entries: Seq<ScanEntryView>,
    hashes: Seq<Option<u64>>,
    i: int,
    j: int,
) -> bool {
    &&& entries[i].file_count == 1
    &&& entries[j].file_count == 1
    &&& 0 < entries[i].size <= 67_108_864
    &&& entries[j].size == entries[i].size
    &&& hashes[i] is Some
    &&& hashes[j] == hashes[i]
}

/// `after` are the entries with their duplicates marked.
pub open spec fn duplicates_marked(
    before: Seq<ScanEntryView>,
    hashes: Seq<Option<u64>>,
    after: Seq<ScanEntryView>,
) -> bool {
    &&& hashes.len() == before.len()
    &&& after.len() == before.len()
    &&& forall|i: int|
        0 <= i < after.len() ==> is_annotated(
            before,
            content_keys(before, hashes),
            i,
            #[trigger] after[i],
        )
}

/// A file is read for its hash if and only if there is another one to compare it
/// with: a single file of the same size, neither empty nor above 64 MiB.
pub proof fn which_files_are_hashed(entries: Seq<ScanEntryView>, i: int)
    requires
        0 <= i < entries.len(),
    ensures
        needs_hash(entries, i) <==> (entries[i].file_count == 1 && 0 < entries[i].size <= 67_108_864
            && exists|j: int|
            0 <= j < entries.len() && j != i && (#[trigger] entries[j]).file_count == 1
                && entries[j].size == entries[i].size),
{
    if entries[i].file_count == 1 && 0 < entries[i].size <= 67_108_864 && exists|j: int|
        0 <= j < entries.len() && j != i && (#[trigger] entries[j]).file_count == 1
            && entries[j].size == entries[i].size {
        let j = choose|j: int|
            0 <= j < entries.len() && j != i && (#[trigger] entries[j]).file_count == 1
                && entries[j].size == entries[i].size;
        assert(is_comparable(entries[j]));
    }
}

/// Two files of the same size are both read, unless they are empty or too large.
pub proof fn files_of_the_same_size_are_hashed(entries: Seq<ScanEntryView>, i: int, j: int)
    requires
        0 <= i < entries.len(),
        0 <= j < entries.len(),
        i != j,
        entries[i].file_count == 1,
        entries[j].file_count == 1,
        entries[i].size == entries[j].size,
        0 < entries[i].size <= MAX_HASH_BYTES,
    ensures
        needs_hash(entries, i),
        needs_hash(entries, j),
        MAX_HASH_BYTES == 67_108_864,
{
    which_files_are_hashed(entries, i);
    which_files_are_hashed(entries, j);
    assert(entries[j].file_count == 1 && entries[i].file_count == 1);
}

proof fn keys_tell_contents(
    entries: Seq<ScanEntryView>,
    hashes: Seq<Option<u64>>,
    i: int,
    j: int,
)
    requires
        0 <= i < entries.len(),
        0 <= j < entries.len(),
        hashes.len() == entries.len(),
    ensures
        ({
            let keys = content_keys(entries, hashes);
            (keys[i] is Some && keys[j] == keys[i]) == have_same_content(entries, hashes, i, j)
        }),
{
}

/// One for each entry with the content of the entry `i`.
pub open spec fn one_alike(
    entries: Seq<ScanEntryView>,
    hashes: Seq<Option<u64>>,
    i: int,
) -> spec_fn(int) -> nat {
    |j: int|
        if have_same_content(entries, hashes, i, j) {
            1nat
        } else {
            0nat
        }
}

/// How many entries have the content of the entry `i`, itself included.
pub open spec fn alike(entries: Seq<ScanEntryView>, hashes: Seq<Option<u64>>, i: int) -> nat {
    total(Seq::new(entries.len(), |j: int| j), one_alike(entries, hashes, i))
}

proof fn groups_count_contents(
    entries: Seq<ScanEntryView>,
    hashes: Seq<Option<u64>>,
    i: int,
    n: int,
)
    requires
        0 <= i < entries.len(),
        0 <= n <= entries.len(),
        hashes.len() == entries.len(),
        content_keys(entries, hashes)[i] is Some,
    ensures
        total(content_keys(entries, hashes).take(n), one_like(content_keys(entries, hashes)[i]))
            == total(Seq::new(n as nat, |j: int| j), one_alike(entries, hashes, i)),
    decreases n,
{
    let keys = content_keys(entries, hashes);
    if n > 0 {
        groups_count_contents(entries, hashes, i, n - 1);
        assert(keys.take(n).drop_last() =~= keys.take(n - 1));
        assert(keys.take(n).last() == keys[n - 1]);
        let places = Seq::new(n as nat, |j: int| j);
        assert(places.drop_last() =~= Seq::new((n - 1) as nat, |j: int| j));
        keys_tell_contents(entries, hashes, i, n - 1);
    }
}

/// Two entries among those that count make at least two.
proof fn two_count(s: Seq<int>, f: spec_fn(int) -> nat, i: int, j: int)
    requires
        0 <= i < j < s.len(),
        f(s[i]) >= 1,
        f(s[j]) >= 1,
    ensures
        total(s, f) >= 2,
    decreases s.len(),
{
    let front = s.drop_last();
    if j < s.len() - 1 {
        assert(front[i] == s[i] && front[j] == s[j]);
        two_count(front, f, i, j);
    } else {
        assert(front[i] == s[i]);
        crate::seqs::total_counts(front, f, i);
    }
}

/// A count of two or more counts an entry besides the entry `i`.
proof fn another_counts(s: Seq<int>, f: spec_fn(int) -> nat, i: int) -> (j: int)
    requires
        forall|j: int| 0 <= j < s.len() ==> f(#[trigger] s[j]) <= 1,
        total(s, f) >= 2,
    ensures
        0 <= j < s.len(),
        j != i,
        f(s[j]) == 1,
    decreases s.len(),
{
    let front = s.drop_last();
    let last = s.len() - 1;
    assert(f(s[last]) <= 1);
    if last != i && f(s[last]) == 1 {
        last
    } else if last == i {
        let j = crate::seqs::total_is_counted(front, f);
        assert(front[j] == s[j]);
        j
    } else {
        assert forall|j: int| 0 <= j < front.len() implies f(#[trigger] front[j]) <= 1 by {
            assert(front[j] == s[j]);
        }
        let j = another_counts(front, f, i);
        assert(front[j] == s[j]);
        j
    }
}

proof fn duplicates_are_alike(
    before: Seq<ScanEntryView>,
    hashes: Seq<Option<u64>>,
    i: int,
)
    requires
        0 <= i < before.len(),
        hashes.len() == before.len(),
    ensures
        has_duplicate(content_keys(before, hashes), i) == exists|j: int|
            0 <= j < before.len() && j != i && #[trigger] have_same_content(before, hashes, i, j),
        has_duplicate(content_keys(before, hashes), i) ==> group_len(
            content_keys(before, hashes),
            i,
        ) == alike(before, hashes, i),
{
    let keys = content_keys(before, hashes);
    let n = before.len() as int;
    let places = Seq::new(before.len(), |j: int| j);
    let f = one_alike(before, hashes, i);
    if keys[i] is Some {
        groups_count_contents(before, hashes, i, n);
        assert(keys.take(n) =~= keys);
        if has_duplicate(keys, i) {
            let j = another_counts(places, f, i);
            assert(places[j] == j);
            assert(have_same_content(before, hashes, i, j));
        }
    }
    if exists|j: int|
        0 <= j < before.len() && j != i && #[trigger] have_same_content(before, hashes, i, j) {
        let j = choose|j: int|
            0 <= j < before.len() && j != i && #[trigger] have_same_content(before, hashes, i, j);
        keys_tell_contents(before, hashes, i, j);
        assert(have_same_content(before, hashes, i, i));
        assert(places[i] == i && places[j] == j);
        if i < j {
            two_count(places, f, i, j);
        } else {
            two_count(places, f, j, i);
        }
    }
}

/// Two files with the same content are marked as duplicates in one group, which
/// counts all the files with that content.
pub proof fn files_with_the_same_content_are_marked(
    before: Seq<ScanEntryView>,
    hashes: Seq<Option<u64>>,
    after: Seq<ScanEntryView>,
    i: int,
    j: int,
)
    requires
        duplicates_marked(before, hashes, after),
        0 <= i < before.len(),
        0 <= j < before.len(),
        i != j,
        have_same_content(before, hashes, i, j),
    ensures
        after[i].duplicate is Some,
        after[j].duplicate is Some,
        after[i].duplicate->0.group_id == after[j].duplicate->0.group_id,
        after[i].duplicate->0.group_size == alike(before, hashes, i),
        after[j].duplicate->0.group_size == alike(before, hashes, i),
        after[i].duplicate->0.group_size >= 2,
{
    let keys = content_keys(before, hashes);
    keys_tell_contents(before, hashes, i, j);
    assert(have_same_content(before, hashes, j, i));
    duplicates_are_alike(before, hashes, i);
    duplicates_are_alike(before, hashes, j);
    assert(is_annotated(before, keys, i, after[i]));
    assert(is_annotated(before, keys, j, after[j]));
    let x = choose|first: int| #[trigger]
        is_duplicate_info(after[i].duplicate->0, before, keys, i, first);
    let y = choose|first: int| #[trigger]
        is_duplicate_info(after[j].duplicate->0, before, keys, j, first);
    assert(keys[x] == keys[y]);
    assert(x == y);
}

/// An entry that shares its content with no other stays as it is.
pub proof fn files_of_their_own_are_not_marked(
    before: Seq<ScanEntryView>,
    hashes: Seq<Option<u64>>,
    after: Seq<ScanEntryView>,
    i: int,
)
    requires
        duplicates_marked(before, hashes, after),
        0 <= i < before.len(),
        forall|j: int|
            0 <= j < before.len() && j != i ==> !#[trigger] have_same_content(before, hashes, i, j),
    ensures
        after[i] == before[i],
{
    duplicates_are_alike(before, hashes, i);
    assert(is_annotated(before, content_keys(before, hashes), i, after[i]));
}

/// Marking duplicates changes nothing else.
pub proof fn marking_changes_nothing_else(
    before: Seq<ScanEntryView>,
    hashes: Seq<Option<u64>>,
    after: Seq<ScanEntryView>,
    i: int,
)
    requires
        duplicates_marked(before, hashes, after),
        0 <= i < before.len(),
    ensures
        after[i] == (ScanEntryView { duplicate: after[i].duplicate, ..before[i] }),
{
    assert(is_annotated(before, content_keys(before, hashes), i, after[i]));
}

proof fn groups_before_grows(keys: Seq<Option<(u64, u64)>>, a: int, b: int)
    requires
        0 <= a <= b,
    ensures
        groups_before(keys, a) <= groups_before(keys, b),
    decreases b - a,
{
    if a < b {
        groups_before_grows(keys, a, b - 1);
    }
}

/// Files with different contents are in different groups, and the group whose
/// first file comes first has the smaller number.
pub proof fn groups_are_numbered_in_order(
    before: Seq<ScanEntryView>,
    hashes: Seq<Option<u64>>,
    after: Seq<ScanEntryView>,
    i: int,
    j: int,
)
    requires
        duplicates_marked(before, hashes, after),
        0 <= i < j < before.len(),
        exists|k: int|
            0 <= k < before.len() && k != i && #[trigger] have_same_content(before, hashes, i, k),
        exists|k: int|
            0 <= k < before.len() && k != j && #[trigger] have_same_content(before, hashes, j, k),
        forall|k: int| 0 <= k <= i ==> !#[trigger] have_same_content(before, hashes, j, k),
    ensures
        after[i].duplicate->0.group_id < after[j].duplicate->0.group_id,
{
    let keys = content_keys(before, hashes);
    duplicates_are_alike(before, hashes, i);
    duplicates_are_alike(before, hashes, j);
    assert(is_annotated(before, keys, i, after[i]));
    assert(is_annotated(before, keys, j, after[j]));
    let x = choose|first: int| #[trigger]
        is_duplicate_info(after[i].duplicate->0, before, keys, i, first);
    let y = choose|first: int| #[trigger]
        is_duplicate_info(after[j].duplicate->0, before, keys, j, first);
    keys_tell_contents(before, hashes, j, y);
    if y <= i {
        assert(have_same_content(before, hashes, j, y));
    }
    groups_before_grows(keys, x + 1, y);
}

proof fn earlier_groups_have_numbers(keys: Seq<Option<(u64, u64)>>, n: int, id: nat) -> (first: int)
    requires
        0 <= n <= keys.len(),
        id < groups_before(keys, n),
    ensures
        0 <= first < n,
        starts_group(keys, first),
        groups_before(keys, first) == id,
    decreases n,
{
    if id < groups_before(keys, n - 1) {
        earlier_groups_have_numbers(keys, n - 1, id)
    } else {
        n - 1
    }
}

/// The numbers of groups leave none out: where there is a group with a number,
/// there is one with each smaller number, down to zero.
pub proof fn no_group_number_is_left_out(
    before: Seq<ScanEntryView>,
    hashes: Seq<Option<u64>>,
    after: Seq<ScanEntryView>,
    i: int,
    id: u64,
) -> (j: int)
    requires
        duplicates_marked(before, hashes, after),
        0 <= i < before.len(),
        exists|k: int|
            0 <= k < before.len() && k != i && #[trigger] have_same_content(before, hashes, i, k),
        id < after[i].duplicate->0.group_id,
    ensures
        0 <= j < before.len(),
        after[j].duplicate is Some,
        after[j].duplicate->0.group_id == id,
{
    let keys = content_keys(before, hashes);
    duplicates_are_alike(before, hashes, i);
    assert(is_annotated(before, keys, i, after[i]));
    let x = choose|first: int| #[trigger]
        is_duplicate_info(after[i].duplicate->0, before, keys, i, first);
    let j = earlier_groups_have_numbers(keys, x, id as nat);
    assert(is_annotated(before, keys, j, after[j]));
    let y = choose|first: int| #[trigger]
        is_duplicate_info(after[j].duplicate->0, before, keys, j, first);
    assert(y == j) by {
        if y < j {
            assert(keys[y] != keys[j]);
        }
    }
    j
}

/// In each group exactly one file is to be kept. Its age is known where that of
/// another file in the group is, and is then at least as high; of files of the
/// same age it is one whose path no other precedes.
pub proof fn the_oldest_file_is_kept(
    before: Seq<ScanEntryView>,
    hashes: Seq<Option<u64>>,
    after: Seq<ScanEntryView>,
    i: int,
) -> (k: int)
    requires
        duplicates_marked(before, hashes, after),
        0 <= i < before.len(),
        exists|j: int|
            0 <= j < before.len() && j != i && #[trigger] have_same_content(before, hashes, i, j),
    ensures
        0 <= k < before.len(),
        have_same_content(before, hashes, i, k),
        after[k].duplicate is Some,
        after[k].duplicate->0.is_primary,
        forall|j: int|
            0 <= j < before.len() && j != k && #[trigger] have_same_content(before, hashes, i, j)
                ==> after[j].duplicate is Some && !after[j].duplicate->0.is_primary && (
            before[j].age_days is Some ==> before[k].age_days is Some && before[j].age_days->0
                <= before[k].age_days->0) && (before[j].age_days == before[k].age_days
                ==> !parts_before(before[j].path.parts, before[k].path.parts)),
{
    let keys = content_keys(before, hashes);
    duplicates_are_alike(before, hashes, i);
    let k = one_of_a_group_is_kept(before, keys, i);
    keys_tell_contents(before, hashes, i, k);
    assert(has_duplicate(keys, k)) by {
        assert(keys[k] == keys[i]);
    }
    assert(is_annotated(before, keys, k, after[k]));
    assert forall|j: int|
        0 <= j < before.len() && j != k && #[trigger] have_same_content(
            before,
            hashes,
            i,
            j,
        ) implies after[j].duplicate is Some && !after[j].duplicate->0.is_primary && (
    before[j].age_days is Some ==> before[k].age_days is Some && before[j].age_days->0
        <= before[k].age_days->0) && (before[j].age_days == before[k].age_days ==> !parts_before(
        before[j].path.parts,
        before[k].path.parts,
    )) by {
        keys_tell_contents(before, hashes, i, j);
        assert(keys[j] == keys[k]);
        assert(has_duplicate(keys, j));
        assert(is_annotated(before, keys, j, after[j]));
        assert(outranks(before, k, j));
        if is_kept(before, keys, j) {
            one_of_a_group_is_kept_at_most(before, keys, k, j);
        }
        if before[j].age_days == before[k].age_days && parts_before(
            before[j].path.parts,
            before[k].path.parts,
        ) {
            crate::path::parts_before_asymmetric(before[j].path.parts, before[k].path.parts);
        }
    }
    k
}

/// An answer is recorded for each entry that stands for one file, and for no
/// other.
pub proof fn answers_are_recorded_for_single_files(
    before: Seq<ScanEntryView>,
    answers: Seq<Option<bool>>,
    after: Seq<ScanEntryView>,
    i: int,
)
    requires
        answers_recorded(before, answers, after),
        0 <= i < before.len(),
    ensures
        before[i].file_count == 1 ==> after[i].in_use == answers[i],
        before[i].file_count != 1 ==> after[i].in_use == before[i].in_use,
        after[i] == (ScanEntryView { in_use: after[i].in_use, ..before[i] }),
{
}

} // verus!
