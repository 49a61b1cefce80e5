//! What an aggregate of download records is: one entry per key, with the
//! counts of all records of that key added up.

use crate::date::Date;
use crate::version::VersionView;
use vstd::prelude::*;

verus! {

/// What identifies an entry of the aggregate.
pub struct KeyView {
    pub name: Seq<char>,
    pub version: VersionView,
    pub date: Date,
}

/// What a `DownloadRecord` is in contracts.
pub struct RecordView {
    pub name: Seq<char>,
    pub version: VersionView,
    pub date: Date,
    pub count: nat,
}

impl RecordView {
    pub open spec fn key(self) -> KeyView {
        KeyView { name: self.name, version: self.version, date: self.date }
    }

    /// The same record with `more` downloads added.
    pub open spec fn plus(self, more: nat) -> RecordView {
        RecordView { count: self.count + more, ..self }
    }
}

/// The downloads that `records` hold for `key`, all records with that key
/// added up.
pub open spec fn count_for(records: Seq<RecordView>, key: KeyView) -> nat
    decreases records.len(),
{
    if records.len() == 0 {
        0
    } else {
        count_for(records.drop_last(), key) + if records.last().key() == key {
            records.last().count
        } else {
            0
        }
    }
}

/// The downloads of all `records` together.
pub open spec fn total(records: Seq<RecordView>) -> nat
    decreases records.len(),
{
    if records.len() == 0 {
        0
    } else {
        total(records.drop_last()) + records.last().count
    }
}

/// Whether some record has `key`.
pub open spec fn holds_key(records: Seq<RecordView>, key: KeyView) -> bool {
    exists|i: int| 0 <= i < records.len() && #[trigger] records[i].key() == key
}

/// The place of a record with `key`, where there is one.
pub open spec fn position(records: Seq<RecordView>, key: KeyView) -> int {
    choose|i: int| 0 <= i < records.len() && #[trigger] records[i].key() == key
}

/// No two records have the same key.
pub open spec fn unique_keys(records: Seq<RecordView>) -> bool {
    forall|i: int, j: int|
        0 <= i < j < records.len() ==> #[trigger] records[i].key() != #[trigger] records[j].key()
}

/// The aggregate `entries` after one more record: the entry with the record's
/// key grows by the record's count and keeps its place; a record with a new
/// key becomes the last entry.
pub open spec fn absorb(entries: Seq<RecordView>, record: RecordView) -> Seq<RecordView> {
    if holds_key(entries, record.key()) {
        let i = position(entries, record.key());
        entries.update(i, entries[i].plus(record.count))
    } else {
        entries.push(record)
    }
}

/// The aggregate of `records`, taken in turn.
pub open spec fn aggregate(records: Seq<RecordView>) -> Seq<RecordView>
    decreases records.len(),
{
    if records.len() == 0 {
        Seq::empty()
    } else {
        absorb(aggregate(records.drop_last()), records.last())
    }
}

proof fn lemma_total_push(s: Seq<RecordView>, r: RecordView)
    ensures
        total(s.push(r)) == total(s) + r.count,
{
    assert(s.push(r).drop_last() =~= s);
}

proof fn lemma_count_push(s: Seq<RecordView>, r: RecordView, key: KeyView)
    ensures
        count_for(s.push(r), key) == count_for(s, key) + if r.key() == key {
            r.count
        } else {
            0
        },
{
    assert(s.push(r).drop_last() =~= s);
}

/// Changing one record changes the total by the difference of the counts;
/// no record counts more than the total.
pub proof fn lemma_total_update(s: Seq<RecordView>, i: int, r: RecordView)
    requires
        0 <= i < s.len(),
    ensures
        total(s.update(i, r)) == total(s) - s[i].count + r.count,
        s[i].count <= total(s),
    decreases s.len(),
{
    if i == s.len() - 1 {
        assert(s.update(i, r).drop_last() =~= s.drop_last());
    } else {
        lemma_total_update(s.drop_last(), i, r);
        assert(s.update(i, r).drop_last() =~= s.drop_last().update(i, r));
    }
}

proof fn lemma_count_update(s: Seq<RecordView>, i: int, more: nat, key: KeyView)
    requires
        0 <= i < s.len(),
    ensures
        count_for(s.update(i, s[i].plus(more)), key) == count_for(s, key) + if s[i].key() == key {
            more
        } else {
            0
        },
    decreases s.len(),
{
    let r = s[i].plus(more);
    if i == s.len() - 1 {
        assert(s.update(i, r).drop_last() =~= s.drop_last());
    } else {
        lemma_count_update(s.drop_last(), i, more, key);
        assert(s.update(i, r).drop_last() =~= s.drop_last().update(i, r));
    }
}

/// Records that do not hold a key count nothing for it.
proof fn lemma_count_absent(s: Seq<RecordView>, key: KeyView)
    requires
        !holds_key(s, key),
    ensures
        count_for(s, key) == 0,
    decreases s.len(),
{
    if s.len() > 0 {
        assert(s.last() == s[s.len() - 1]);
        assert(s[s.len() - 1].key() != key);
        assert forall|i: int| 0 <= i < s.drop_last().len() implies #[trigger] s.drop_last()[i].key()
            != key by {
            assert(s.drop_last()[i] == s[i]);
            assert(s[i].key() != key);
        }
        lemma_count_absent(s.drop_last(), key);
    }
}

/// Where keys are unique, the count for an entry's key is that entry's count.
pub proof fn lemma_count_unique(s: Seq<RecordView>, i: int)
    requires
        unique_keys(s),
        0 <= i < s.len(),
    ensures
        count_for(s, s[i].key()) == s[i].count,
    decreases s.len(),
{
    let key = s[i].key();
    let front = s.drop_last();
    assert forall|a: int, b: int| 0 <= a < b < front.len() implies #[trigger] front[a].key()
        != #[trigger] front[b].key() by {
        assert(front[a] == s[a] && front[b] == s[b]);
    }
    if i == s.len() - 1 {
        assert forall|a: int| 0 <= a < front.len() implies #[trigger] front[a].key() != key by {
            assert(front[a] == s[a]);
        }
        lemma_count_absent(front, key);
    } else {
        assert(front[i] == s[i]);
        lemma_count_unique(front, i);
        assert(s.last() == s[s.len() - 1]);
    }
}

/// Absorbing a record keeps keys unique, adds the record's count to the count
/// for its key and to the total, and leaves every other key's count alone.
pub proof fn lemma_absorb(entries: Seq<RecordView>, record: RecordView)
    requires
        unique_keys(entries),
    ensures
        unique_keys(absorb(entries, record)),
        total(absorb(entries, record)) == total(entries) + record.count,
        forall|key: KeyView|
            #[trigger] count_for(absorb(entries, record), key) == count_for(entries, key)
                + if record.key() == key {
                record.count
            } else {
                0
            },
        forall|key: KeyView|
            holds_key(absorb(entries, record), key) <==> holds_key(entries, key) || key
                == record.key(),
{
    let after = absorb(entries, record);
    if holds_key(entries, record.key()) {
        let i = position(entries, record.key());
        lemma_total_update(entries, i, entries[i].plus(record.count));
        assert forall|key: KeyView| #[trigger]
            count_for(after, key) == count_for(entries, key) + if record.key() == key {
                record.count
            } else {
                0
            } by {
            lemma_count_update(entries, i, record.count, key);
        }
        assert forall|a: int| 0 <= a < after.len() implies #[trigger] after[a].key()
            == entries[a].key() by {}
        assert forall|key: KeyView|
            holds_key(after, key) <==> holds_key(entries, key) || key == record.key() by {
            if holds_key(after, key) {
                let a = choose|a: int| 0 <= a < after.len() && #[trigger] after[a].key() == key;
                assert(entries[a].key() == key);
            }
            if holds_key(entries, key) {
                let a = choose|a: int|
                    0 <= a < entries.len() && #[trigger] entries[a].key() == key;
                assert(after[a].key() == key);
            }
            if key == record.key() {
                assert(after[i].key() == key);
            }
        }
    } else {
        lemma_total_push(entries, record);
        assert forall|key: KeyView| #[trigger]
            count_for(after, key) == count_for(entries, key) + if record.key() == key {
                record.count
            } else {
                0
            } by {
            lemma_count_push(entries, record, key);
        }
        assert forall|a: int, b: int| 0 <= a < b < after.len() implies #[trigger] after[a].key()
            != #[trigger] after[b].key() by {
            if b == entries.len() {
                assert(after[a] == entries[a]);
                assert(entries[a].key() != record.key());
            } else {
                assert(after[a] == entries[a] && after[b] == entries[b]);
            }
        }
        assert forall|key: KeyView|
            holds_key(after, key) <==> holds_key(entries, key) || key == record.key() by {
            if holds_key(after, key) {
                let a = choose|a: int| 0 <= a < after.len() && #[trigger] after[a].key() == key;
                if a < entries.len() {
                    assert(entries[a].key() == key);
                }
            }
            if holds_key(entries, key) {
                let a = choose|a: int|
                    0 <= a < entries.len() && #[trigger] entries[a].key() == key;
                assert(after[a].key() == key);
            }
            if key == record.key() {
                assert(after[entries.len() as int].key() == key);
            }
        }
    }
}

/// However often a key occurs among the records fed in, the aggregate holds
/// it once, and with the sum of the counts of all records with that key.
pub proof fn lemma_aggregate_adds_up(records: Seq<RecordView>)
    ensures
        unique_keys(aggregate(records)),
        total(aggregate(records)) == total(records),
        forall|key: KeyView| #[trigger]
            count_for(aggregate(records), key) == count_for(records, key),
        forall|key: KeyView| holds_key(aggregate(records), key) <==> holds_key(records, key),
        forall|i: int|
            0 <= i < aggregate(records).len() ==> (#[trigger] aggregate(records)[i]).count
                == count_for(records, aggregate(records)[i].key()),
    decreases records.len(),
{
    let agg = aggregate(records);
    if records.len() > 0 {
        let front = records.drop_last();
        let last = records.last();
        lemma_aggregate_adds_up(front);
        lemma_absorb(aggregate(front), last);
        assert forall|key: KeyView| holds_key(agg, key) <==> holds_key(records, key) by {
            if holds_key(records, key) {
                let a = choose|a: int| 0 <= a < records.len() && #[trigger] records[a].key() == key;
                if a < front.len() {
                    assert(front[a].key() == key);
                }
            }
            if holds_key(front, key) {
                let a = choose|a: int| 0 <= a < front.len() && #[trigger] front[a].key() == key;
                assert(records[a].key() == key);
            }
            if key == last.key() {
                assert(records[records.len() - 1].key() == key);
            }
        }
    }
    assert forall|i: int| 0 <= i < agg.len() implies (#[trigger] agg[i]).count == count_for(
        records,
        agg[i].key(),
    ) by {
        lemma_count_unique(agg, i);
    }
}


/// The crate names of `records`, each once, in the order of first occurrence.
pub open spec fn distinct_names(records: Seq<RecordView>) -> Seq<Seq<char>>
    decreases records.len(),
{
    if records.len() == 0 {
        Seq::empty()
    } else {
        let names = distinct_names(records.drop_last());
        if names.contains(records.last().name) {
            names
        } else {
            names.push(records.last().name)
        }
    }
}

/// `distinct_names` holds no name twice, and holds exactly the names that
/// occur among the records.
pub proof fn lemma_distinct_names(records: Seq<RecordView>)
    ensures
        distinct_names(records).no_duplicates(),
        forall|name: Seq<char>|
            distinct_names(records).contains(name) <==> exists|i: int|
                0 <= i < records.len() && (#[trigger] records[i]).name == name,
    decreases records.len(),
{
    let names = distinct_names(records);
    if records.len() > 0 {
        let front = records.drop_last();
        let last = records.last();
        let before = distinct_names(front);
        lemma_distinct_names(front);
        assert forall|name: Seq<char>|
            names.contains(name) <==> exists|i: int|
                0 <= i < records.len() && (#[trigger] records[i]).name == name by {
            if names.contains(name) {
                if before.contains(name) {
                    let i = choose|i: int| 0 <= i < front.len() && (#[trigger] front[i]).name == name;
                    assert(records[i].name == name);
                } else {
                    let k = choose|k: int| 0 <= k < names.len() && names[k] == name;
                    if k < before.len() {
                        assert(before[k] == name);
                    }
                    assert(records[records.len() - 1].name == name);
                }
            }
            if exists|i: int| 0 <= i < records.len() && (#[trigger] records[i]).name == name {
                let i = choose|i: int| 0 <= i < records.len() && (#[trigger] records[i]).name == name;
                if i < front.len() {
                    assert(front[i].name == name);
                    assert(before.contains(name));
                    let k = choose|k: int| 0 <= k < before.len() && before[k] == name;
                    assert(names[k] == name);
                } else {
                    if before.contains(name) {
                    } else {
                        assert(names[before.len() as int] == name);
                    }
                }
            }
        }
    }
}

/// The total of a prefix is no more than the total of the whole.
pub proof fn lemma_total_prefix(s: Seq<RecordView>, n: int)
    requires
        0 <= n <= s.len(),
    ensures
        total(s.take(n)) <= total(s),
    decreases s.len() - n,
{
    if n < s.len() {
        lemma_total_prefix(s, n + 1);
        assert(s.take(n + 1).drop_last() =~= s.take(n));
    } else {
        assert(s.take(n) =~= s);
    }
}

/// The keys of `records`, in their order.
pub open spec fn keys_of(records: Seq<RecordView>) -> Seq<KeyView> {
    records.map_values(|r: RecordView| r.key())
}

/// The crate names of `records`, in their order.
pub open spec fn names_of(records: Seq<RecordView>) -> Seq<Seq<char>> {
    records.map_values(|r: RecordView| r.name)
}

proof fn lemma_names_as_set(records: Seq<RecordView>)
    ensures
        distinct_names(records).to_set() == names_of(records).to_set(),
        distinct_names(records).len() == names_of(records).to_set().len(),
{
    lemma_distinct_names(records);
    let distinct = distinct_names(records);
    let names = names_of(records);
    assert forall|name: Seq<char>| distinct.to_set().contains(name) <==> names.to_set().contains(
        name,
    ) by {
        if distinct.contains(name) {
            let i = choose|i: int| 0 <= i < records.len() && (#[trigger] records[i]).name == name;
            assert(names[i] == name);
        }
        if names.contains(name) {
            let i = choose|i: int| 0 <= i < names.len() && names[i] == name;
            assert(records[i].name == name);
        }
    }
    assert(distinct.to_set() =~= names.to_set());
    distinct.unique_seq_to_set();
}

/// The aggregate has as many entries as the records have different keys,
/// and as many different crate names as the records have.
pub proof fn lemma_aggregate_counts(records: Seq<RecordView>)
    ensures
        aggregate(records).len() == keys_of(records).to_set().len(),
        distinct_names(aggregate(records)).len() == names_of(records).to_set().len(),
        distinct_names(records).len() == names_of(records).to_set().len(),
{
    let entries = aggregate(records);
    lemma_aggregate_adds_up(records);
    let keys = keys_of(entries);
    assert(keys.no_duplicates()) by {
        assert forall|i: int, j: int| 0 <= i < keys.len() && 0 <= j < keys.len() && i != j implies keys[i]
            != keys[j] by {
            if i < j {
                assert(entries[i].key() != entries[j].key());
            } else {
                assert(entries[j].key() != entries[i].key());
            }
        }
    }
    keys.unique_seq_to_set();
    assert forall|key: KeyView| keys.to_set().contains(key) <==> keys_of(records).to_set().contains(
        key,
    ) by {
        assert(holds_key(entries, key) <==> holds_key(records, key));
        if keys.contains(key) {
            let i = choose|i: int| 0 <= i < keys.len() && keys[i] == key;
            assert(entries[i].key() == key);
        }
        if holds_key(entries, key) {
            let i = choose|i: int| 0 <= i < entries.len() && #[trigger] entries[i].key() == key;
            assert(keys[i] == key);
        }
        if keys_of(records).contains(key) {
            let i = choose|i: int| 0 <= i < keys_of(records).len() && keys_of(records)[i] == key;
            assert(records[i].key() == key);
        }
        if holds_key(records, key) {
            let i = choose|i: int| 0 <= i < records.len() && #[trigger] records[i].key() == key;
            assert(keys_of(records)[i] == key);
        }
    }
    assert(keys.to_set() =~= keys_of(records).to_set());
    lemma_names_as_set(entries);
    lemma_names_as_set(records);
    assert forall|name: Seq<char>|
        names_of(entries).to_set().contains(name) <==> names_of(records).to_set().contains(
            name,
        ) by {
        if names_of(entries).contains(name) {
            let i = choose|i: int| 0 <= i < names_of(entries).len() && names_of(entries)[i] == name;
            let key = entries[i].key();
            assert(holds_key(entries, key));
            assert(holds_key(records, key));
            let k = choose|k: int| 0 <= k < records.len() && #[trigger] records[k].key() == key;
            assert(names_of(records)[k] == name);
        }
        if names_of(records).contains(name) {
            let i = choose|i: int| 0 <= i < names_of(records).len() && names_of(records)[i] == name;
            let key = records[i].key();
            assert(holds_key(records, key));
            assert(holds_key(entries, key));
            let k = choose|k: int| 0 <= k < entries.len() && #[trigger] entries[k].key() == key;
            assert(names_of(entries)[k] == name);
        }
    }
    assert(names_of(entries).to_set() =~= names_of(records).to_set());
}

} // verus!
