//! The download aggregate: one count per (crate, version, day).

use crate::aggregate::{
    absorb, aggregate, count_for, distinct_names, holds_key, lemma_absorb, lemma_aggregate_adds_up,
    lemma_total_prefix, lemma_total_update, position, total, unique_keys, KeyView,
    RecordView,
};
use crate::date::{date_text, Date};
use crate::ranking::{count_preceding, entry_at_rank, lemma_rank_is_permutation, precedes, rank, top};
use crate::text::{decimal, push_decimal};
use crate::version::{version_text, Version};
use vstd::prelude::*;
use vstd::string::*;

verus! {

/// A number of downloads of one version of one crate on one day.
#[derive(Debug)]
pub struct DownloadRecord {
    pub name: String,
    pub version: Version,
    pub date: Date,
    pub count: u64,
}

impl View for DownloadRecord {
    type V = RecordView;

    open spec fn view(&self) -> RecordView {
        RecordView {
            name: self.name@,
            version: self.version@,
            date: self.date,
            count: self.count as nat,
        }
    }
}

/// The line that reports an entry: its day, two spaces, its crate, `@`, its
/// version, ` .. ` and its count.
pub open spec fn report_line_text(record: RecordView) -> Seq<char> {
    date_text(record.date) + "  "@ + record.name + "@"@ + version_text(record.version) + " .. "@
        + decimal(record.count)
}

impl DownloadRecord {
    pub fn new(name: String, version: Version, date: Date, count: u64) -> (record: DownloadRecord)
        ensures
            record.name == name,
            record.version == version,
            record.date == date,
            record.count == count,
    {
        DownloadRecord { name, version, date, count }
    }

    /// Whether two records count downloads of the same version of the same
    /// crate on the same day.
    pub fn same_key(&self, other: &DownloadRecord) -> (same: bool)
        ensures
            same == (self@.key() == other@.key()),
    {
        let same = self.name == other.name && self.version.same(&other.version) && self.date.year
            == other.date.year && self.date.month == other.date.month && self.date.day
            == other.date.day;
        assert(same == (self@.key() == other@.key())) by {
            if self@.key() == other@.key() {
                assert(self@.key().name == other@.key().name);
                assert(self@.key().version == other@.key().version);
                assert(self@.key().date == other@.key().date);
            }
        }
        same
    }

    /// The line that reports this record, such as
    /// `2024-01-16  serde@1.0.0 .. 42`.
    pub fn report_line(&self) -> (line: String)
        ensures
            line@ == report_line_text(self@),
    {
        let mut line = self.date.to_text();
        line.append("  ");
        line.append(self.name.as_str());
        line.append("@");
        line.append(self.version.to_text().as_str());
        line.append(" .. ");
        push_decimal(&mut line, self.count);
        assert(line@ =~= report_line_text(self@));
        line
    }

    /// A copy of this record.
    pub fn duplicate(&self) -> (copy: DownloadRecord)
        ensures
            copy@ == self@,
    {
        DownloadRecord {
            name: self.name.clone(),
            version: self.version.duplicate(),
            date: self.date,
            count: self.count,
        }
    }
}

/// What a run reports of its aggregate: the downloads of all entries
/// together, the number of distinct crates, and the number of entries, which
/// is the number of ledger rows that a merge has to write.
#[derive(Clone, Copy, Debug, PartialEq, Eq, Structural)]
pub struct DownloadStats {
    pub total_downloads: u64,
    pub num_crates: usize,
    pub total_inserts: usize,
}

/// The figures of an aggregate with the given entries.
pub open spec fn stats_of(entries: Seq<RecordView>) -> DownloadStats {
    DownloadStats {
        total_downloads: total(entries) as u64,
        num_crates: distinct_names(entries).len() as usize,
        total_inserts: entries.len() as usize,
    }
}

/// The aggregate would count more downloads than a `u64` holds.
#[derive(Clone, Copy, Debug, PartialEq, Eq, Structural)]
pub struct CountOverflow;

/// Download counts per (crate, version, day), in the order in which the keys
/// were first seen. No key occurs twice: records with a key that the
/// aggregate already holds are added to that entry. All counts together fit
/// a `u64`.
#[derive(Debug)]
pub struct DownloadsMap {
    entries: Vec<DownloadRecord>,
}

impl View for DownloadsMap {
    type V = Seq<RecordView>;

    closed spec fn view(&self) -> Seq<RecordView> {
        self.entries@.map_values(|r: DownloadRecord| r@)
    }
}

impl DownloadsMap {
    #[verifier::type_invariant]
    spec fn inv(&self) -> bool {
        &&& unique_keys(self@)
        &&& total(self@) <= u64::MAX
    }

    /// The empty aggregate.
    pub fn new() -> (map: DownloadsMap)
        ensures
            map@ == Seq::<RecordView>::empty(),
    {
        let entries: Vec<DownloadRecord> = Vec::new();
        assert(entries@.map_values(|r: DownloadRecord| r@) =~= Seq::<RecordView>::empty());
        DownloadsMap { entries }
    }

    /// Adds one record. Fails, and changes nothing, exactly when the total
    /// would no longer fit a `u64`.
    pub fn add(&mut self, record: DownloadRecord) -> (result: Result<(), CountOverflow>)
        ensures
            unique_keys(old(self)@),
            unique_keys(final(self)@),
            result is Ok <==> total(old(self)@) + record.count <= u64::MAX,
            result is Ok ==> final(self)@ == absorb(old(self)@, record@),
            result is Err ==> final(self)@ == old(self)@,
    {
        proof {
            use_type_invariant(&*self);
        }
        if record.count > u64::MAX - self.sum_downloads() {
            return Err(CountOverflow);
        }
        proof {
            lemma_absorb(self@, record@);
        }
        let n = self.entries.len();
        let mut i: usize = 0;
        while i < n
            invariant
                n == self.entries.len(),
                i <= n,
                *self == *old(self),
                unique_keys(self@),
                total(self@) + record.count <= u64::MAX,
                forall|j: int| 0 <= j < i ==> (#[trigger] self@[j]).key() != record@.key(),
            decreases n - i,
        {
            if self.entries[i].same_key(&record) {
                let ghost before = self@;
                proof {
                    assert(before[i as int] == self.entries[i as int]@);
                    assert(before[i as int].key() == record@.key());
                    assert(holds_key(before, record@.key()));
                    let p = position(before, record@.key());
                    assert(p == i) by {
                        if p < i {
                            assert(before[p].key() != before[i as int].key());
                        } else if p > i {
                            assert(before[i as int].key() != before[p].key());
                        }
                    }
                    lemma_total_update(before, i as int, before[i as int].plus(record@.count));
                }
                let sum = self.entries[i].count + record.count;
                let grown = DownloadRecord {
                    name: record.name,
                    version: record.version,
                    date: record.date,
                    count: sum,
                };
                proof {
                    assert(self.entries@.update(i as int, grown).map_values(|r: DownloadRecord| r@)
                        =~= absorb(before, record@));
                    assert(Seq::<DownloadRecord>::empty().map_values(|r: DownloadRecord| r@)
                        =~= Seq::<RecordView>::empty());
                }
                let mut entries: Vec<DownloadRecord> = Vec::new();
                core::mem::swap(&mut self.entries, &mut entries);
                entries[i] = grown;
                self.entries = entries;
                return Ok(());
            }
            i = i + 1;
        }
        let ghost before = self@;
        proof {
            assert(!holds_key(before, record@.key()));
            assert(self.entries@.push(record).map_values(|r: DownloadRecord| r@) =~= absorb(
                before,
                record@,
            ));
            assert(Seq::<DownloadRecord>::empty().map_values(|r: DownloadRecord| r@)
                =~= Seq::<RecordView>::empty());
        }
        let mut entries: Vec<DownloadRecord> = Vec::new();
        core::mem::swap(&mut self.entries, &mut entries);
        entries.push(record);
        self.entries = entries;
        Ok(())
    }

    /// The aggregate of `records`, taken in turn. Fails exactly when the
    /// records count more downloads than a `u64` holds.
    pub fn from_records(records: Vec<DownloadRecord>) -> (result: Result<
        DownloadsMap,
        CountOverflow,
    >)
        ensures
            result is Ok <==> total(records@.map_values(|r: DownloadRecord| r@)) <= u64::MAX,
            result matches Ok(map) ==> map@ == aggregate(
                records@.map_values(|r: DownloadRecord| r@),
            ),
            result matches Ok(map) ==> unique_keys(map@) && forall|key: KeyView| #[trigger]
                count_for(map@, key) == count_for(
                    records@.map_values(|r: DownloadRecord| r@),
                    key,
                ),
    {
        let ghost all = records@.map_values(|r: DownloadRecord| r@);
        let mut map = DownloadsMap::new();
        let n = records.len();
        let mut i: usize = 0;
        assert(all.take(0) =~= Seq::<RecordView>::empty());
        while i < n
            invariant
                n == records.len(),
                i <= n,
                all == records@.map_values(|r: DownloadRecord| r@),
                map@ == aggregate(all.take(i as int)),
            decreases n - i,
        {
            let record = records[i].duplicate();
            proof {
                assert(all.take(i + 1).drop_last() =~= all.take(i as int));
                assert(all.take(i + 1).last() == record@);
                lemma_aggregate_adds_up(all.take(i as int));
                lemma_total_prefix(all, i + 1);
            }
            match map.add(record) {
                Ok(()) => {},
                Err(e) => {
                    return Err(e);
                },
            }
            i = i + 1;
        }
        proof {
            assert(all.take(n as int) =~= all);
            lemma_aggregate_adds_up(all);
            use_type_invariant(&map);
        }
        Ok(map)
    }

    /// The number of entries: of distinct (crate, version, day) keys.
    pub fn len(&self) -> (len: usize)
        ensures
            len == self@.len(),
            unique_keys(self@),
            total(self@) <= u64::MAX,
    {
        proof {
            use_type_invariant(self);
        }
        self.entries.len()
    }

    pub fn is_empty(&self) -> (empty: bool)
        ensures
            empty == (self@.len() == 0),
    {
        self.entries.len() == 0
    }

    /// The downloads of all entries together.
    pub fn sum_downloads(&self) -> (sum: u64)
        ensures
            sum == total(self@),
    {
        proof {
            use_type_invariant(self);
        }
        let n = self.entries.len();
        let mut sum: u64 = 0;
        let mut i: usize = 0;
        assert(self@.take(0) =~= Seq::<RecordView>::empty());
        while i < n
            invariant
                n == self.entries.len(),
                i <= n,
                total(self@) <= u64::MAX,
                sum == total(self@.take(i as int)),
            decreases n - i,
        {
            proof {
                assert(self@.take(i + 1).drop_last() =~= self@.take(i as int));
                assert(self@.take(i + 1).last() == self.entries[i as int]@);
                lemma_total_prefix(self@, i + 1);
            }
            sum = sum + self.entries[i].count;
            i = i + 1;
        }
        assert(self@.take(n as int) =~= self@);
        sum
    }

    /// The crate names of the aggregate, each once, in the order in which
    /// they were first seen.
    pub fn unique_crates(&self) -> (names: Vec<String>)
        ensures
            names@.map_values(|s: String| s@) == distinct_names(self@),
    {
        let mut names: Vec<String> = Vec::new();
        let n = self.entries.len();
        let mut i: usize = 0;
        assert(self@.take(0) =~= Seq::<RecordView>::empty());
        assert(names@.map_values(|s: String| s@) =~= Seq::<Seq<char>>::empty());
        while i < n
            invariant
                n == self.entries.len(),
                i <= n,
                names@.map_values(|s: String| s@) == distinct_names(self@.take(i as int)),
            decreases n - i,
        {
            let ghost seen = names@.map_values(|s: String| s@);
            let ghost name = self@[i as int].name;
            let m = names.len();
            let mut k: usize = 0;
            let mut found = false;
            while k < m && !found
                invariant
                    m == names.len(),
                    k <= m,
                    i < n,
                    n == self.entries.len(),
                    seen == names@.map_values(|s: String| s@),
                    name == self.entries[i as int].name@,
                    found ==> seen.contains(name),
                    !found ==> forall|a: int| 0 <= a < k ==> seen[a] != name,
                decreases (m - k) + if found { 0int } else { 1int },
            {
                if names[k] == self.entries[i].name {
                    assert(seen[k as int] == name);
                    found = true;
                } else {
                    k = k + 1;
                }
            }
            proof {
                assert(self@.take(i + 1).drop_last() =~= self@.take(i as int));
                assert(self@.take(i + 1).last() == self@[i as int]);
            }
            if !found {
                names.push(self.entries[i].name.clone());
                assert(names@.map_values(|s: String| s@) =~= seen.push(name));
            }
            i = i + 1;
        }
        assert(self@.take(n as int) =~= self@);
        names
    }

    /// The place of entry `j` in the report.
    fn rank_of(&self, j: usize) -> (r: usize)
        requires
            j < self@.len(),
        ensures
            r == rank(self@, j as int),
    {
        let n = self.entries.len();
        let mut r: usize = 0;
        let mut i: usize = 0;
        while i < n
            invariant
                n == self.entries.len(),
                i <= n,
                j < n,
                r == count_preceding(self@, j as int, i as int),
                r <= i,
            decreases n - i,
        {
            let a = self.entries[i].count;
            let b = self.entries[j].count;
            if a > b || (a == b && i < j) {
                r = r + 1;
            }
            i = i + 1;
        }
        r
    }

    /// The first `num` entries of the report: the entries by falling count,
    /// equal counts in the order in which their keys were first seen.
    pub fn top_downloads(&self, num: usize) -> (report: Vec<DownloadRecord>)
        ensures
            report@.map_values(|r: DownloadRecord| r@) == top(self@, num as nat),
    {
        let n = self.entries.len();
        let m = if num <= n { num } else { n };
        proof {
            lemma_rank_is_permutation(self@);
        }
        // order[k] becomes the entry that is reported at place k
        let mut order: Vec<usize> = Vec::new();
        let mut k: usize = 0;
        while k < n
            invariant
                k <= n,
                order@.len() == k,
                forall|a: int| 0 <= a < k ==> order@[a] == 0,
            decreases n - k,
        {
            order.push(0);
            k = k + 1;
        }
        let mut j: usize = 0;
        while j < n
            invariant
                n == self.entries.len(),
                j <= n,
                order@.len() == n,
                forall|a: int| 0 <= a < n ==> 0 <= #[trigger] order@[a] < n,
                forall|i: int| 0 <= i < j ==> order@[rank(self@, i) as int] == i,
                forall|i: int| 0 <= i < n ==> #[trigger] rank(self@, i) < n,
                forall|a: int, b: int|
                    0 <= a < n && 0 <= b < n && a != b ==> (precedes(self@, a, b)
                        <==> #[trigger] rank(self@, a) < #[trigger] rank(self@, b)),
            decreases n - j,
        {
            let r = self.rank_of(j);
            assert(rank(self@, j as int) < n);
            let ghost before = order@;
            order.set(r, j);
            assert forall|i: int| 0 <= i < j + 1 implies order@[rank(self@, i) as int] == i by {
                if i < j {
                    assert(rank(self@, i) != rank(self@, j as int)) by {
                        if precedes(self@, i, j as int) {
                        } else {
                            assert(precedes(self@, j as int, i));
                        }
                    }
                    assert(before[rank(self@, i) as int] == i);
                }
            }
            j = j + 1;
        }
        let mut report: Vec<DownloadRecord> = Vec::new();
        let mut k: usize = 0;
        while k < m
            invariant
                n == self.entries.len(),
                m <= n,
                k <= m,
                order@.len() == n,
                forall|a: int| 0 <= a < n ==> 0 <= #[trigger] order@[a] < n,
                report@.len() == k,
                forall|a: int| 0 <= a < k ==> (#[trigger] report@[a])@ == self@[order@[a] as int],
            decreases m - k,
        {
            let at = order[k];
            report.push(self.entries[at].duplicate());
            k = k + 1;
        }
        proof {
            let got = report@.map_values(|r: DownloadRecord| r@);
            let want = top(self@, num as nat);
            assert(got.len() == want.len());
            assert forall|a: int| 0 <= a < got.len() implies got[a] == want[a] by {
                let e = entry_at_rank(self@, a);
                assert(0 <= e < n && rank(self@, e) == a);
                assert(order@[rank(self@, e) as int] == e);
                assert(report@[a]@ == self@[order@[a] as int]);
            }
            assert(got =~= want);
        }
        report
    }

    /// The figures that a run reports of its aggregate.
    pub fn stats(&self) -> (stats: DownloadStats)
        ensures
            stats == stats_of(self@),
            stats.total_downloads == total(self@),
            stats.num_crates == distinct_names(self@).len(),
            stats.total_inserts == self@.len(),
    {
        let names = self.unique_crates();
        assert(names@.map_values(|s: String| s@).len() == names@.len());
        DownloadStats {
            total_downloads: self.sum_downloads(),
            num_crates: names.len(),
            total_inserts: self.len(),
        }
    }

    /// The entries, in the order in which their keys were first seen.
    pub fn into_vec(self) -> (entries: Vec<DownloadRecord>)
        ensures
            entries@.map_values(|r: DownloadRecord| r@) == self@,
            unique_keys(self@),
    {
        proof {
            use_type_invariant(&self);
        }
        self.entries
    }
}

} // verus!
