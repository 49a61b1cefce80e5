//! The download ledger: the downloads of each version on each day, counted
//! up over all merges.

use crate::date::Date;
use vstd::prelude::*;

verus! {

/// What identifies a row of the ledger: a version of the catalog and a day.
#[derive(Clone, Copy, Debug, PartialEq, Eq, Structural)]
pub struct LedgerKey {
    pub version_id: i32,
    pub date: Date,
}

/// A row of the ledger: the downloads of one version on one day, counted up
/// over all merges, and two flags that other parts of the registry keep.
#[derive(Clone, Copy, Debug, PartialEq, Eq, Structural)]
pub struct VersionDownload {
    pub version_id: i32,
    pub date: Date,
    pub downloads: i32,
    pub counted: i32,
    pub processed: bool,
}

impl VersionDownload {
    pub open spec fn key(self) -> LedgerKey {
        LedgerKey { version_id: self.version_id, date: self.date }
    }
}

pub open spec fn fits_i32(n: int) -> bool {
    i32::MIN <= n <= i32::MAX
}

/// The ledger after `amount` downloads were merged into the row `key`: a
/// row that exists grows by the amount and keeps its flags, a row that does
/// not exist is made with the amount. `None` where the counter would leave
/// the range of the ledger's 32-bit column.
pub open spec fn credit(ledger: Map<LedgerKey, VersionDownload>, key: LedgerKey, amount: int) -> Option<
    Map<LedgerKey, VersionDownload>,
> {
    if ledger.contains_key(key) {
        let row = ledger[key];
        if fits_i32(row.downloads + amount) {
            Some(ledger.insert(key, VersionDownload { downloads: (row.downloads + amount) as i32, ..row }))
        } else {
            None
        }
    } else if fits_i32(amount) {
        Some(
            ledger.insert(
                key,
                VersionDownload {
                    version_id: key.version_id,
                    date: key.date,
                    downloads: amount as i32,
                    counted: 0,
                    processed: false,
                },
            ),
        )
    } else {
        None
    }
}

/// The downloads that the ledger holds for `key`; zero where it has no such
/// row.
pub open spec fn balance(ledger: Map<LedgerKey, VersionDownload>, key: LedgerKey) -> int {
    if ledger.contains_key(key) {
        ledger[key].downloads as int
    } else {
        0
    }
}

/// Every row of the ledger is stored under its own key.
pub open spec fn keyed(ledger: Map<LedgerKey, VersionDownload>) -> bool {
    forall|key: LedgerKey| ledger.contains_key(key) ==> (#[trigger] ledger[key]).key() == key
}

/// The ledger that holds `rows`, where no two of them have the same key.
pub open spec fn ledger_of(rows: Seq<VersionDownload>) -> Map<LedgerKey, VersionDownload> {
    Map::new(
        |key: LedgerKey| exists|i: int| 0 <= i < rows.len() && (#[trigger] rows[i]).key() == key,
        |key: LedgerKey| rows[choose|i: int| 0 <= i < rows.len() && (#[trigger] rows[i]).key() == key],
    )
}

/// No two rows have the same key.
pub open spec fn distinct_rows(rows: Seq<VersionDownload>) -> bool {
    forall|i: int, j: int|
        0 <= i < j < rows.len() ==> (#[trigger] rows[i]).key() != (#[trigger] rows[j]).key()
}

proof fn lemma_ledger_row(rows: Seq<VersionDownload>, i: int)
    requires
        distinct_rows(rows),
        0 <= i < rows.len(),
    ensures
        ledger_of(rows).contains_key(rows[i].key()),
        ledger_of(rows)[rows[i].key()] == rows[i],
{
    let key = rows[i].key();
    let c = choose|c: int| 0 <= c < rows.len() && (#[trigger] rows[c]).key() == key;
    if c < i {
        assert(rows[c].key() != rows[i].key());
    } else if i < c {
        assert(rows[i].key() != rows[c].key());
    }
}

proof fn lemma_ledger_push(rows: Seq<VersionDownload>, row: VersionDownload)
    requires
        distinct_rows(rows),
        !ledger_of(rows).contains_key(row.key()),
    ensures
        distinct_rows(rows.push(row)),
        ledger_of(rows.push(row)) == ledger_of(rows).insert(row.key(), row),
{
    let after = rows.push(row);
    assert forall|i: int, j: int| 0 <= i < j < after.len() implies (#[trigger] after[i]).key() != (
    #[trigger] after[j]).key() by {
        if j == rows.len() {
            assert(after[i] == rows[i]);
            assert(ledger_of(rows).contains_key(rows[i].key()));
        } else {
            assert(after[i] == rows[i] && after[j] == rows[j]);
        }
    }
    let want = ledger_of(rows).insert(row.key(), row);
    assert forall|key: LedgerKey| ledger_of(after).contains_key(key) <==> want.contains_key(
        key,
    ) by {
        if ledger_of(after).contains_key(key) {
            let c = choose|c: int| 0 <= c < after.len() && (#[trigger] after[c]).key() == key;
            if c < rows.len() {
                assert(rows[c].key() == key);
            }
        }
        if ledger_of(rows).contains_key(key) {
            let c = choose|c: int| 0 <= c < rows.len() && (#[trigger] rows[c]).key() == key;
            assert(after[c].key() == key);
        }
        if key == row.key() {
            assert(after[rows.len() as int].key() == key);
        }
    }
    assert forall|key: LedgerKey| ledger_of(after).contains_key(key) implies ledger_of(after)[key]
        == want[key] by {
        let c = choose|c: int| 0 <= c < after.len() && (#[trigger] after[c]).key() == key;
        lemma_ledger_row(after, c);
        if c < rows.len() {
            assert(rows[c] == after[c]);
            lemma_ledger_row(rows, c);
        }
    }
    assert(ledger_of(after) =~= want);
}

proof fn lemma_ledger_update(rows: Seq<VersionDownload>, i: int, row: VersionDownload)
    requires
        distinct_rows(rows),
        0 <= i < rows.len(),
        row.key() == rows[i].key(),
    ensures
        distinct_rows(rows.update(i, row)),
        ledger_of(rows.update(i, row)) == ledger_of(rows).insert(row.key(), row),
{
    let after = rows.update(i, row);
    assert forall|a: int| 0 <= a < rows.len() implies (#[trigger] after[a]).key()
        == rows[a].key() by {}
    assert forall|a: int, b: int| 0 <= a < b < after.len() implies (#[trigger] after[a]).key() != (
    #[trigger] after[b]).key() by {
        assert(rows[a].key() != rows[b].key());
    }
    let want = ledger_of(rows).insert(row.key(), row);
    assert forall|key: LedgerKey| ledger_of(after).contains_key(key) <==> want.contains_key(
        key,
    ) by {
        if ledger_of(after).contains_key(key) {
            let c = choose|c: int| 0 <= c < after.len() && (#[trigger] after[c]).key() == key;
            assert(rows[c].key() == key);
        }
        if ledger_of(rows).contains_key(key) {
            let c = choose|c: int| 0 <= c < rows.len() && (#[trigger] rows[c]).key() == key;
            assert(after[c].key() == key);
        }
        if key == row.key() {
            assert(after[i].key() == key);
        }
    }
    assert forall|key: LedgerKey| ledger_of(after).contains_key(key) implies ledger_of(after)[key]
        == want[key] by {
        let c = choose|c: int| 0 <= c < after.len() && (#[trigger] after[c]).key() == key;
        lemma_ledger_row(after, c);
        if c != i {
            assert(rows[c] == after[c]);
            lemma_ledger_row(rows, c);
        }
    }
    assert(ledger_of(after) =~= want);
}

/// The permanent relation from (version, day) to downloads. Its rows are
/// only ever made or added to.
#[derive(Debug)]
pub struct Ledger {
    rows: Vec<VersionDownload>,
}

impl View for Ledger {
    type V = Map<LedgerKey, VersionDownload>;

    closed spec fn view(&self) -> Map<LedgerKey, VersionDownload> {
        ledger_of(self.rows@)
    }
}

impl Ledger {
    #[verifier::type_invariant]
    spec fn inv(&self) -> bool {
        distinct_rows(self.rows@)
    }

    /// The ledger without any row.
    pub fn new() -> (ledger: Ledger)
        ensures
            ledger@ == Map::<LedgerKey, VersionDownload>::empty(),
    {
        let rows: Vec<VersionDownload> = Vec::new();
        assert(ledger_of(rows@) =~= Map::<LedgerKey, VersionDownload>::empty());
        Ledger { rows }
    }

    /// The number of rows.
    pub fn len(&self) -> (len: usize)
        ensures
            self@.dom().finite(),
            len == self@.dom().len(),
    {
        proof {
            use_type_invariant(self);
            lemma_ledger_size(self.rows@);
        }
        self.rows.len()
    }

    /// The row for a version and a day, if the ledger has one.
    pub fn get(&self, version_id: i32, date: Date) -> (row: Option<VersionDownload>)
        ensures
            row == if self@.contains_key(LedgerKey { version_id, date }) {
                Some(self@[LedgerKey { version_id, date }])
            } else {
                None
            },
            row matches Some(found) ==> found.version_id == version_id && found.date == date,
    {
        match self.find(LedgerKey { version_id, date }) {
            Some(i) => Some(self.rows[i]),
            None => None,
        }
    }

    /// All rows, each once.
    pub fn to_vec(&self) -> (rows: Vec<VersionDownload>)
        ensures
            distinct_rows(rows@),
            ledger_of(rows@) == self@,
    {
        proof {
            use_type_invariant(self);
        }
        let rows = self.copy_rows();
        rows
    }

    fn copy_rows(&self) -> (rows: Vec<VersionDownload>)
        ensures
            rows@ == self.rows@,
    {
        let mut rows: Vec<VersionDownload> = Vec::new();
        let n = self.rows.len();
        let mut i: usize = 0;
        while i < n
            invariant
                n == self.rows.len(),
                i <= n,
                rows@ == self.rows@.take(i as int),
            decreases n - i,
        {
            rows.push(self.rows[i]);
            assert(rows@ =~= self.rows@.take(i + 1));
            i = i + 1;
        }
        assert(self.rows@.take(n as int) =~= self.rows@);
        rows
    }

    /// A copy of the ledger.
    pub fn duplicate(&self) -> (copy: Ledger)
        ensures
            copy@ == self@,
    {
        proof {
            use_type_invariant(self);
        }
        Ledger { rows: self.copy_rows() }
    }

    /// Where the row with `key` stands.
    fn find(&self, key: LedgerKey) -> (at: Option<usize>)
        ensures
            distinct_rows(self.rows@),
            match at {
                Some(i) => i < self.rows@.len() && self.rows@[i as int].key() == key
                    && self@.contains_key(key) && self@[key] == self.rows@[i as int],
                None => !self@.contains_key(key),
            },
    {
        proof {
            use_type_invariant(self);
        }
        let n = self.rows.len();
        let mut i: usize = 0;
        while i < n
            invariant
                n == self.rows.len(),
                i <= n,
                distinct_rows(self.rows@),
                forall|j: int| 0 <= j < i ==> (#[trigger] self.rows@[j]).key() != key,
            decreases n - i,
        {
            let row = self.rows[i];
            if row.version_id == key.version_id && row.date == key.date {
                proof {
                    lemma_ledger_row(self.rows@, i as int);
                }
                return Some(i);
            }
            i = i + 1;
        }
        None
    }

    /// Merges `amount` downloads into the row `key`: adds them to the row
    /// if there is one, makes the row with them if there is none. Changes
    /// nothing, and returns `false`, where the counter would leave its range.
    pub fn credit(&mut self, key: LedgerKey, amount: i64) -> (done: bool)
        ensures
            done <==> credit(old(self)@, key, amount as int) is Some,
            done ==> Some(final(self)@) == credit(old(self)@, key, amount as int),
            !done ==> final(self)@ == old(self)@,
    {
        let at = self.find(key);
        let changed = match at {
            Some(i) => {
                let row = self.rows[i];
                let sum: i128 = row.downloads as i128 + amount as i128;
                if sum < -0x8000_0000 || sum > 0x7fff_ffff {
                    return false;
                }
                VersionDownload { downloads: sum as i32, ..row }
            },
            None => {
                if amount < -0x8000_0000 || amount > 0x7fff_ffff {
                    return false;
                }
                VersionDownload {
                    version_id: key.version_id,
                    date: key.date,
                    downloads: amount as i32,
                    counted: 0,
                    processed: false,
                }
            },
        };
        proof {
            match at {
                Some(i) => lemma_ledger_update(self.rows@, i as int, changed),
                None => lemma_ledger_push(self.rows@, changed),
            }
        }
        let mut rows: Vec<VersionDownload> = Vec::new();
        core::mem::swap(&mut self.rows, &mut rows);
        match at {
            Some(i) => {
                rows[i] = changed;
            },
            None => {
                rows.push(changed);
            },
        }
        self.rows = rows;
        true
    }
}

proof fn lemma_ledger_size(rows: Seq<VersionDownload>)
    requires
        distinct_rows(rows),
    ensures
        ledger_of(rows).dom().finite(),
        ledger_of(rows).dom().len() == rows.len(),
    decreases rows.len(),
{
    if rows.len() == 0 {
        assert(ledger_of(rows).dom() =~= Set::<LedgerKey>::empty());
    } else {
        let front = rows.drop_last();
        let last = rows.last();
        assert forall|i: int, j: int| 0 <= i < j < front.len() implies (#[trigger] front[i]).key()
            != (#[trigger] front[j]).key() by {
            assert(front[i] == rows[i] && front[j] == rows[j]);
        }
        lemma_ledger_size(front);
        assert(!ledger_of(front).contains_key(last.key())) by {
            if ledger_of(front).contains_key(last.key()) {
                let c = choose|c: int| 0 <= c < front.len() && (#[trigger] front[c]).key() == last.key();
                assert(rows[c] == front[c]);
                assert(rows[c].key() != rows[rows.len() - 1].key());
            }
        }
        lemma_ledger_push(front, last);
        assert(front.push(last) =~= rows);
        assert(ledger_of(rows).dom() =~= ledger_of(front).dom().insert(last.key()));
    }
}

} // verus!
