//! The additive merge of an aggregate into the ledger, by way of a staging
//! relation.

use crate::aggregate::{unique_keys, RecordView};
use crate::catalog::{catalog_wf, lists, resolve, Catalog, CatalogVersionView};
use crate::downloads::DownloadsMap;
use crate::ledger::{balance, credit, fits_i32, keyed, Ledger, LedgerKey, VersionDownload};
use crate::staging::{staged_rows, staging_rows, NewDownload, NewDownloadView};
use crate::version::lemma_version_text_is_injective;
use vstd::prelude::*;
use vstd::string::*;

verus! {

/// What a `NameAndVersion` is in contracts.
pub struct NameAndVersionView {
    pub name: Seq<char>,
    pub version: Seq<char>,
}

/// The ledger row that a staging row is merged into, if its crate and
/// version are in the catalog.
pub open spec fn target(catalog: Seq<CatalogVersionView>, row: NewDownloadView) -> Option<
    LedgerKey,
> {
    match resolve(catalog, row.name, row.version) {
        Some(version_id) => Some(LedgerKey { version_id, date: row.date }),
        None => None,
    }
}

/// The ledger after the staging rows were merged into it one after another;
/// rows whose crate and version are not in the catalog are passed over.
/// `None` where a counter would leave its range.
pub open spec fn merged(
    ledger: Map<LedgerKey, VersionDownload>,
    catalog: Seq<CatalogVersionView>,
    rows: Seq<NewDownloadView>,
) -> Option<Map<LedgerKey, VersionDownload>>
    decreases rows.len(),
{
    if rows.len() == 0 {
        Some(ledger)
    } else {
        match merged(ledger, catalog, rows.drop_last()) {
            Some(before) => match target(catalog, rows.last()) {
                Some(key) => credit(before, key, rows.last().downloads),
                None => Some(before),
            },
            None => None,
        }
    }
}

/// The crate names and version texts of the staging rows that are not in
/// the catalog, in the order of the rows.
pub open spec fn unmatched(catalog: Seq<CatalogVersionView>, rows: Seq<NewDownloadView>) -> Seq<
    NameAndVersionView,
>
    decreases rows.len(),
{
    if rows.len() == 0 {
        Seq::empty()
    } else {
        let before = unmatched(catalog, rows.drop_last());
        if target(catalog, rows.last()) is None {
            before.push(NameAndVersionView { name: rows.last().name, version: rows.last().version })
        } else {
            before
        }
    }
}

/// The downloads that the staging rows hold for the ledger row `key`.
pub open spec fn staged_for(
    catalog: Seq<CatalogVersionView>,
    rows: Seq<NewDownloadView>,
    key: LedgerKey,
) -> int
    decreases rows.len(),
{
    if rows.len() == 0 {
        0
    } else {
        staged_for(catalog, rows.drop_last(), key) + if target(catalog, rows.last()) == Some(key) {
            rows.last().downloads
        } else {
            0
        }
    }
}

/// Whether some staging row is merged into the ledger row `key`.
pub open spec fn targets(
    catalog: Seq<CatalogVersionView>,
    rows: Seq<NewDownloadView>,
    key: LedgerKey,
) -> bool {
    exists|i: int| 0 <= i < rows.len() && target(catalog, #[trigger] rows[i]) == Some(key)
}

/// A merge is additive. Where it succeeds, the ledger has a row for each key
/// that it had and for each key that a staging row is merged into; each
/// balance has grown by what the staging rows hold for its key; rows that
/// were there keep their flags, and new rows have none set.
pub proof fn lemma_merge_is_additive(
    ledger: Map<LedgerKey, VersionDownload>,
    catalog: Seq<CatalogVersionView>,
    rows: Seq<NewDownloadView>,
)
    requires
        merged(ledger, catalog, rows) is Some,
    ensures
        keyed(ledger) ==> keyed(merged(ledger, catalog, rows)->0),
        forall|key: LedgerKey|
            (#[trigger] merged(ledger, catalog, rows)->0.contains_key(key)) <==> ledger.contains_key(
                key,
            ) || targets(catalog, rows, key),
        forall|key: LedgerKey| #[trigger]
            balance(merged(ledger, catalog, rows)->0, key) == balance(ledger, key) + staged_for(
                catalog,
                rows,
                key,
            ),
        forall|key: LedgerKey| #[trigger]
            merged(ledger, catalog, rows)->0.contains_key(key) ==> {
                let row = merged(ledger, catalog, rows)->0[key];
                if ledger.contains_key(key) {
                    row.counted == ledger[key].counted && row.processed == ledger[key].processed
                } else {
                    row.counted == 0 && !row.processed
                }
            },
    decreases rows.len(),
{
    let after = merged(ledger, catalog, rows)->0;
    if rows.len() == 0 {
        assert forall|key: LedgerKey|
            (#[trigger] after.contains_key(key)) <==> ledger.contains_key(key) || targets(
                catalog,
                rows,
                key,
            ) by {}
    } else {
        let front = rows.drop_last();
        let last = rows.last();
        let before = merged(ledger, catalog, front)->0;
        lemma_merge_is_additive(ledger, catalog, front);
        assert forall|key: LedgerKey| targets(catalog, rows, key) <==> targets(catalog, front, key)
            || target(catalog, last) == Some(key) by {
            if targets(catalog, rows, key) {
                let i = choose|i: int|
                    0 <= i < rows.len() && target(catalog, #[trigger] rows[i]) == Some(key);
                if i < front.len() {
                    assert(front[i] == rows[i]);
                }
            }
            if targets(catalog, front, key) {
                let i = choose|i: int|
                    0 <= i < front.len() && target(catalog, #[trigger] front[i]) == Some(key);
                assert(front[i] == rows[i]);
            }
            if target(catalog, last) == Some(key) {
                assert(rows[rows.len() - 1] == last);
            }
        }
        assert forall|key: LedgerKey|
            (#[trigger] after.contains_key(key)) <==> ledger.contains_key(key) || targets(
                catalog,
                rows,
                key,
            ) by {
            assert(before.contains_key(key) <==> ledger.contains_key(key) || targets(
                catalog,
                front,
                key,
            ));
        }
        assert forall|key: LedgerKey| #[trigger]
            balance(after, key) == balance(ledger, key) + staged_for(catalog, rows, key) by {
            assert(balance(before, key) == balance(ledger, key) + staged_for(catalog, front, key));
        }
        assert forall|key: LedgerKey| #[trigger] after.contains_key(key) implies {
            let row = after[key];
            if ledger.contains_key(key) {
                row.counted == ledger[key].counted && row.processed == ledger[key].processed
            } else {
                row.counted == 0 && !row.processed
            }
        } by {
            assert(before.contains_key(key) <==> ledger.contains_key(key) || targets(
                catalog,
                front,
                key,
            ));
            if before.contains_key(key) {
                let row = before[key];
                assert(if ledger.contains_key(key) {
                    row.counted == ledger[key].counted && row.processed == ledger[key].processed
                } else {
                    row.counted == 0 && !row.processed
                });
            }
        }
    }
}

/// Merging the same staging rows twice into a ledger that was empty gives
/// each row twice the downloads that one merge gave it, and no other rows.
pub proof fn lemma_merge_twice_doubles(catalog: Seq<CatalogVersionView>, rows: Seq<NewDownloadView>)
    requires
        merged(Map::empty(), catalog, rows) is Some,
        merged(merged(Map::empty(), catalog, rows)->0, catalog, rows) is Some,
    ensures
        ({
            let once = merged(Map::empty(), catalog, rows)->0;
            let twice = merged(once, catalog, rows)->0;
            &&& twice.dom() == once.dom()
            &&& forall|key: LedgerKey|
                once.contains_key(key) ==> (#[trigger] twice[key]).downloads == 2
                    * once[key].downloads
        }),
{
    let empty = Map::<LedgerKey, VersionDownload>::empty();
    let once = merged(empty, catalog, rows)->0;
    let twice = merged(once, catalog, rows)->0;
    lemma_merge_is_additive(empty, catalog, rows);
    lemma_merge_is_additive(once, catalog, rows);
    assert forall|key: LedgerKey| twice.contains_key(key) <==> once.contains_key(key) by {
        assert(once.contains_key(key) <==> empty.contains_key(key) || targets(catalog, rows, key));
        assert(twice.contains_key(key) <==> once.contains_key(key) || targets(catalog, rows, key));
    }
    assert(twice.dom() =~= once.dom());
    assert forall|key: LedgerKey| once.contains_key(key) implies (#[trigger] twice[key]).downloads
        == 2 * once[key].downloads by {
        assert(balance(once, key) == balance(empty, key) + staged_for(catalog, rows, key));
        assert(balance(twice, key) == balance(once, key) + staged_for(catalog, rows, key));
        assert(twice.contains_key(key));
    }
}

/// No two staging rows are merged into the same ledger row.
pub open spec fn distinct_targets(catalog: Seq<CatalogVersionView>, rows: Seq<NewDownloadView>) -> bool {
    forall|i: int, j: int|
        0 <= i < j < rows.len() && target(catalog, #[trigger] rows[i]) is Some ==> target(
            catalog,
            rows[i],
        ) != target(catalog, #[trigger] rows[j])
}

/// The ledger rows that the staging rows are merged into.
pub open spec fn written(catalog: Seq<CatalogVersionView>, rows: Seq<NewDownloadView>) -> Set<
    LedgerKey,
> {
    Set::new(|key: LedgerKey| targets(catalog, rows, key))
}

/// The crate name and version text of a staging row.
pub open spec fn pair_of(row: NewDownloadView) -> NameAndVersionView {
    NameAndVersionView { name: row.name, version: row.version }
}

proof fn lemma_nothing_staged_for(
    catalog: Seq<CatalogVersionView>,
    rows: Seq<NewDownloadView>,
    key: LedgerKey,
)
    requires
        !targets(catalog, rows, key),
    ensures
        staged_for(catalog, rows, key) == 0,
    decreases rows.len(),
{
    if rows.len() > 0 {
        let front = rows.drop_last();
        assert(rows[rows.len() - 1] == rows.last());
        assert(target(catalog, rows[rows.len() - 1]) != Some(key));
        assert(!targets(catalog, front, key)) by {
            if targets(catalog, front, key) {
                let i = choose|i: int|
                    0 <= i < front.len() && target(catalog, #[trigger] front[i]) == Some(key);
                assert(rows[i] == front[i]);
            }
        }
        lemma_nothing_staged_for(catalog, front, key);
    }
}

proof fn lemma_distinct_targets_of_front(catalog: Seq<CatalogVersionView>, rows: Seq<NewDownloadView>)
    requires
        distinct_targets(catalog, rows),
        rows.len() > 0,
    ensures
        distinct_targets(catalog, rows.drop_last()),
{
    let front = rows.drop_last();
    assert forall|i: int, j: int|
        0 <= i < j < front.len() && target(catalog, #[trigger] front[i]) is Some implies target(
        catalog,
        front[i],
    ) != target(catalog, #[trigger] front[j]) by {
        assert(front[i] == rows[i] && front[j] == rows[j]);
    }
}

/// Where no two staging rows are merged into the same ledger row, what is
/// staged for the ledger row of a staging row is that row's count.
pub proof fn lemma_one_row_per_target(
    catalog: Seq<CatalogVersionView>,
    rows: Seq<NewDownloadView>,
    i: int,
)
    requires
        distinct_targets(catalog, rows),
        0 <= i < rows.len(),
        target(catalog, rows[i]) is Some,
    ensures
        staged_for(catalog, rows, target(catalog, rows[i])->0) == rows[i].downloads,
    decreases rows.len(),
{
    let key = target(catalog, rows[i])->0;
    let front = rows.drop_last();
    lemma_distinct_targets_of_front(catalog, rows);
    if i == rows.len() - 1 {
        assert(!targets(catalog, front, key)) by {
            if targets(catalog, front, key) {
                let k = choose|k: int|
                    0 <= k < front.len() && target(catalog, #[trigger] front[k]) == Some(key);
                assert(rows[k] == front[k]);
                assert(target(catalog, rows[k]) != target(catalog, rows[i]));
            }
        }
        lemma_nothing_staged_for(catalog, front, key);
    } else {
        assert(front[i] == rows[i]);
        lemma_one_row_per_target(catalog, front, i);
        assert(rows[rows.len() - 1] == rows.last());
        assert(target(catalog, rows[i]) != target(catalog, rows[rows.len() - 1]));
    }
}

/// The entries of an aggregate are merged into ledger rows of their own:
/// where no key occurs twice, the labels of the versions are labels and
/// the catalog lists no version twice, no two staging rows are merged into
/// the same ledger row.
pub proof fn lemma_entries_have_rows_of_their_own(
    catalog: Seq<CatalogVersionView>,
    entries: Seq<RecordView>,
)
    requires
        catalog_wf(catalog),
        unique_keys(entries),
        forall|i: int| 0 <= i < entries.len() ==> (#[trigger] entries[i]).version.wf(),
    ensures
        distinct_targets(catalog, staged_rows(entries)),
{
    let rows = staged_rows(entries);
    assert forall|i: int, j: int|
        0 <= i < j < rows.len() && target(catalog, #[trigger] rows[i]) is Some implies target(
        catalog,
        rows[i],
    ) != target(catalog, #[trigger] rows[j]) by {
        if target(catalog, rows[i]) == target(catalog, rows[j]) {
            assert(lists(catalog, rows[i].name, rows[i].version));
            assert(lists(catalog, rows[j].name, rows[j].version));
            let a = choose|a: int|
                0 <= a < catalog.len() && (#[trigger] catalog[a]).name == rows[i].name
                    && catalog[a].num == rows[i].version;
            let b = choose|b: int|
                0 <= b < catalog.len() && (#[trigger] catalog[b]).name == rows[j].name
                    && catalog[b].num == rows[j].version;
            assert(catalog[a].id == catalog[b].id);
            assert(a == b);
            assert(entries[i].version.wf() && entries[j].version.wf());
            lemma_version_text_is_injective(entries[i].version, entries[j].version);
            assert(entries[i].key() == entries[j].key());
        }
    }
}

/// A save gives each entry's count to the entry's own ledger row. Where
/// the aggregate and the catalog are as in
/// `lemma_entries_have_rows_of_their_own`, the counts fit the staging
/// relation and the merge succeeds, the ledger row of an entry that the
/// catalog lists has grown by exactly the count of that entry.
pub proof fn lemma_each_row_grows_by_its_entry(
    ledger: Map<LedgerKey, VersionDownload>,
    catalog: Seq<CatalogVersionView>,
    entries: Seq<RecordView>,
    i: int,
)
    requires
        catalog_wf(catalog),
        unique_keys(entries),
        forall|k: int| 0 <= k < entries.len() ==> (#[trigger] entries[k]).version.wf(),
        counts_fit(entries),
        merged(ledger, catalog, staged_rows(entries)) is Some,
        0 <= i < entries.len(),
        target(catalog, staged_rows(entries)[i]) is Some,
    ensures
        ({
            let key = target(catalog, staged_rows(entries)[i])->0;
            let after = merged(ledger, catalog, staged_rows(entries))->0;
            &&& after.contains_key(key)
            &&& after[key].downloads == balance(ledger, key) + entries[i].count
        }),
{
    let rows = staged_rows(entries);
    let key = target(catalog, rows[i])->0;
    lemma_entries_have_rows_of_their_own(catalog, entries);
    lemma_one_row_per_target(catalog, rows, i);
    lemma_merge_is_additive(ledger, catalog, rows);
    lemma_rows_fit_when_counts_fit(entries);
    let after = merged(ledger, catalog, rows)->0;
    assert(targets(catalog, rows, key));
    assert(after.contains_key(key));
    assert(balance(after, key) == balance(ledger, key) + staged_for(catalog, rows, key));
}

/// Saving the same aggregate twice to a ledger that was empty gives the
/// ledger row of each entry that the catalog lists twice the count of that
/// entry: the second save adds, and neither replaces nor passes over.
pub proof fn lemma_saving_twice_doubles_each_entry(
    catalog: Seq<CatalogVersionView>,
    entries: Seq<RecordView>,
    i: int,
)
    requires
        catalog_wf(catalog),
        unique_keys(entries),
        forall|k: int| 0 <= k < entries.len() ==> (#[trigger] entries[k]).version.wf(),
        counts_fit(entries),
        merged(Map::empty(), catalog, staged_rows(entries)) is Some,
        merged(merged(Map::empty(), catalog, staged_rows(entries))->0, catalog, staged_rows(entries))
            is Some,
        0 <= i < entries.len(),
        target(catalog, staged_rows(entries)[i]) is Some,
    ensures
        ({
            let key = target(catalog, staged_rows(entries)[i])->0;
            let once = merged(Map::empty(), catalog, staged_rows(entries))->0;
            let twice = merged(once, catalog, staged_rows(entries))->0;
            &&& once[key].downloads == entries[i].count
            &&& twice[key].downloads == 2 * entries[i].count
            &&& twice.dom() == once.dom()
        }),
{
    let empty = Map::<LedgerKey, VersionDownload>::empty();
    let once = merged(empty, catalog, staged_rows(entries))->0;
    lemma_each_row_grows_by_its_entry(empty, catalog, entries, i);
    lemma_each_row_grows_by_its_entry(once, catalog, entries, i);
    lemma_merge_twice_doubles(catalog, staged_rows(entries));
}

/// The pairs that a merge reports are the crate names and version texts of
/// exactly the staging rows that the catalog does not list, one for each
/// such row, in the order of the rows.
pub proof fn lemma_unmatched_are_the_rows_not_listed(
    catalog: Seq<CatalogVersionView>,
    rows: Seq<NewDownloadView>,
)
    ensures
        unmatched(catalog, rows) == rows.filter(
            |row: NewDownloadView| target(catalog, row) is None,
        ).map_values(|row: NewDownloadView| pair_of(row)),
    decreases rows.len(),
{
    reveal(Seq::filter);
    let not_listed = |row: NewDownloadView| target(catalog, row) is None;
    let pair = |row: NewDownloadView| pair_of(row);
    if rows.len() == 0 {
        assert(unmatched(catalog, rows) =~= rows.filter(not_listed).map_values(pair));
    } else {
        let front = rows.drop_last();
        lemma_unmatched_are_the_rows_not_listed(catalog, front);
        if not_listed(rows.last()) {
            assert(front.filter(not_listed).push(rows.last()).map_values(pair) =~= front.filter(
                not_listed,
            ).map_values(pair).push(pair_of(rows.last())));
        }
    }
}

/// Where no two staging rows are merged into the same ledger row, every
/// staging row is either reported or merged into a ledger row of its own:
/// the rows are as many as the pairs reported and the ledger rows written
/// together.
pub proof fn lemma_rows_are_reported_or_written(
    catalog: Seq<CatalogVersionView>,
    rows: Seq<NewDownloadView>,
)
    requires
        distinct_targets(catalog, rows),
    ensures
        written(catalog, rows).finite(),
        rows.len() == unmatched(catalog, rows).len() + written(catalog, rows).len(),
    decreases rows.len(),
{
    if rows.len() == 0 {
        assert(written(catalog, rows) =~= Set::<LedgerKey>::empty());
    } else {
        let front = rows.drop_last();
        let last = rows.last();
        lemma_distinct_targets_of_front(catalog, rows);
        lemma_rows_are_reported_or_written(catalog, front);
        assert forall|key: LedgerKey| targets(catalog, rows, key) <==> targets(catalog, front, key)
            || target(catalog, last) == Some(key) by {
            if targets(catalog, rows, key) {
                let i = choose|i: int|
                    0 <= i < rows.len() && target(catalog, #[trigger] rows[i]) == Some(key);
                if i < front.len() {
                    assert(front[i] == rows[i]);
                }
            }
            if targets(catalog, front, key) {
                let i = choose|i: int|
                    0 <= i < front.len() && target(catalog, #[trigger] front[i]) == Some(key);
                assert(front[i] == rows[i]);
            }
            if target(catalog, last) == Some(key) {
                assert(rows[rows.len() - 1] == last);
            }
        }
        match target(catalog, last) {
            Some(key) => {
                assert(!targets(catalog, front, key)) by {
                    if targets(catalog, front, key) {
                        let i = choose|i: int|
                            0 <= i < front.len() && target(catalog, #[trigger] front[i]) == Some(
                                key,
                            );
                        assert(front[i] == rows[i]);
                        assert(rows[rows.len() - 1] == last);
                        assert(target(catalog, rows[i]) != target(catalog, rows[rows.len() - 1]));
                    }
                }
                assert(written(catalog, rows) =~= written(catalog, front).insert(key));
            },
            None => {
                assert(written(catalog, rows) =~= written(catalog, front));
            },
        }
    }
}

/// A merge of no rows changes nothing and reports nothing.
pub proof fn lemma_empty_merge_is_no_op(
    ledger: Map<LedgerKey, VersionDownload>,
    catalog: Seq<CatalogVersionView>,
)
    ensures
        merged(ledger, catalog, Seq::empty()) == Some(ledger),
        unmatched(catalog, Seq::empty()) == Seq::<NameAndVersionView>::empty(),
{
}

/// A staging row whose crate and version are not in the catalog is reported
/// and changes nothing: the merge is the merge of the other rows.
pub proof fn lemma_unmatched_row_is_passed_over(
    ledger: Map<LedgerKey, VersionDownload>,
    catalog: Seq<CatalogVersionView>,
    rows: Seq<NewDownloadView>,
    i: int,
)
    requires
        0 <= i < rows.len(),
        target(catalog, rows[i]) is None,
    ensures
        merged(ledger, catalog, rows) == merged(ledger, catalog, rows.remove(i)),
        unmatched(catalog, rows).contains(
            NameAndVersionView { name: rows[i].name, version: rows[i].version },
        ),
        forall|key: LedgerKey| #[trigger]
            staged_for(catalog, rows, key) == staged_for(catalog, rows.remove(i), key),
    decreases rows.len(),
{
    let front = rows.drop_last();
    let pair = NameAndVersionView { name: rows[i].name, version: rows[i].version };
    if i == rows.len() - 1 {
        assert(rows.remove(i) =~= front);
        let found = unmatched(catalog, rows);
        assert(found[found.len() - 1] == pair);
    } else {
        lemma_unmatched_row_is_passed_over(ledger, catalog, front, i);
        assert(front[i] == rows[i]);
        assert(rows.remove(i).drop_last() =~= front.remove(i));
        assert(rows.remove(i).last() == rows.last());
        let before = unmatched(catalog, front);
        let k = choose|k: int| 0 <= k < before.len() && before[k] == pair;
        assert(unmatched(catalog, rows)[k] == pair);
        assert forall|key: LedgerKey| #[trigger]
            staged_for(catalog, rows, key) == staged_for(catalog, rows.remove(i), key) by {
            assert(staged_for(catalog, front, key) == staged_for(catalog, front.remove(i), key));
        }
    }
}


/// A crate name and version text that a merge found in a log and not in
/// the catalog.
#[derive(Debug)]
pub struct NameAndVersion {
    pub name: String,
    pub version: String,
}

impl View for NameAndVersion {
    type V = NameAndVersionView;

    open spec fn view(&self) -> NameAndVersionView {
        NameAndVersionView { name: self.name@, version: self.version@ }
    }
}

impl NameAndVersion {
    /// The pair as `name@version`.
    pub fn to_text(&self) -> (text: String)
        ensures
            text@ == self.name@ + seq!['@'] + self.version@,
    {
        let mut text = self.name.clone();
        text.append("@");
        text.append(self.version.as_str());
        proof {
            reveal_strlit("@");
            assert("@"@ =~= seq!['@']);
            assert(text@ =~= self.name@ + seq!['@'] + self.version@);
        }
        text
    }
}

/// The store refused a statement; the transaction it belongs to is undone.
#[derive(Clone, Copy, Debug, PartialEq, Eq, Structural)]
pub struct PersistenceError;

/// The step of a save that failed. Whichever it is, the ledger is as it was
/// before the save.
#[derive(Clone, Copy, Debug, PartialEq, Eq, Structural)]
pub enum SaveError {
    /// The staging relation could not be made.
    CreateStaging,
    /// The staging relation could not be filled.
    FillStaging,
    /// The staging rows could not be merged into the ledger.
    MergeLedger,
}

impl SaveError {
    /// What failed, in words.
    pub fn message(&self) -> (text: &'static str)
        ensures
            text@ == match *self {
                SaveError::CreateStaging => "Failed to create temp_downloads table"@,
                SaveError::FillStaging => "Failed to fill temp_downloads table"@,
                SaveError::MergeLedger => "Failed to save temp_downloads to version_downloads table"@,
            },
    {
        match self {
            SaveError::CreateStaging => "Failed to create temp_downloads table",
            SaveError::FillStaging => "Failed to fill temp_downloads table",
            SaveError::MergeLedger => "Failed to save temp_downloads to version_downloads table",
        }
    }
}

/// The catalog and the ledger together: what a save works on.
#[derive(Debug)]
pub struct Database {
    pub catalog: Catalog,
    pub ledger: Ledger,
}

impl Database {
    /// A database with the given catalog and an empty ledger.
    pub fn new(catalog: Catalog) -> (db: Database)
        ensures
            db.catalog == catalog,
            db.ledger@ == Map::<LedgerKey, VersionDownload>::empty(),
    {
        Database { catalog, ledger: Ledger::new() }
    }
}

/// Whether every staging row's count fits the 32-bit column of the staging
/// relation.
pub open spec fn all_fit(rows: Seq<NewDownloadView>) -> bool {
    forall|i: int| 0 <= i < rows.len() ==> fits_i32((#[trigger] rows[i]).downloads)
}

/// Whether every entry's count fits the 32-bit column of the staging
/// relation.
pub open spec fn counts_fit(entries: Seq<RecordView>) -> bool {
    forall|i: int| 0 <= i < entries.len() ==> (#[trigger] entries[i]).count <= i32::MAX
}

/// The staging rows of an aggregate fit the staging relation exactly when
/// no count is above `i32::MAX`: a larger count is never staged, neither
/// cut short nor turned into another number.
pub proof fn lemma_rows_fit_when_counts_fit(entries: Seq<RecordView>)
    ensures
        all_fit(staged_rows(entries)) <==> counts_fit(entries),
        forall|i: int|
            0 <= i < entries.len() ==> (#[trigger] staged_rows(entries)[i]).downloads >= 0,
        counts_fit(entries) ==> forall|i: int|
            0 <= i < entries.len() ==> (#[trigger] staged_rows(entries)[i]).downloads
                == entries[i].count,
{
    let rows = staged_rows(entries);
    if all_fit(rows) {
        assert forall|i: int| 0 <= i < entries.len() implies (#[trigger] entries[i]).count
            <= i32::MAX by {
            assert(fits_i32(rows[i].downloads));
        }
    }
    if counts_fit(entries) {
        assert forall|i: int| 0 <= i < rows.len() implies fits_i32(
            (#[trigger] rows[i]).downloads,
        ) by {
            assert(entries[i].count <= i32::MAX);
        }
    }
}

/// Makes the staging relation: empty, and owned by the save that makes it,
/// so that no other save sees it and it is gone when the save ends.
pub fn create_temp_downloads_table() -> (staging: Vec<NewDownload>)
    ensures
        staging@.len() == 0,
{
    Vec::new()
}

/// Loads every entry of `downloads` into the staging relation, all at once,
/// and returns their number. Fails, and loads nothing, exactly where a
/// count does not fit the relation's 32-bit column.
pub fn fill_temp_downloads_table(downloads: DownloadsMap, staging: &mut Vec<NewDownload>) -> (result:
    Result<usize, PersistenceError>)
    ensures
        result is Ok <==> all_fit(staged_rows(downloads@)),
        result is Ok <==> counts_fit(downloads@),
        result matches Ok(n) ==> n == downloads@.len() && final(staging)@.map_values(
            |r: NewDownload| r@,
        ) == old(staging)@.map_values(|r: NewDownload| r@) + staged_rows(downloads@),
        result is Err ==> *final(staging) == *old(staging),
{
    let mut rows = staging_rows(downloads);
    let ghost staged = staged_rows(downloads@);
    proof {
        lemma_rows_fit_when_counts_fit(downloads@);
    }
    let n = rows.len();
    assert(rows@.map_values(|r: NewDownload| r@).len() == n);
    let mut i: usize = 0;
    while i < n
        invariant
            n == rows.len(),
            i <= n,
            staged == rows@.map_values(|r: NewDownload| r@),
            staged == staged_rows(downloads@),
            forall|k: int| 0 <= k < i ==> fits_i32((#[trigger] staged[k]).downloads),
        decreases n - i,
    {
        let count = rows[i].downloads;
        assert(staged[i as int] == rows@[i as int]@);
        if count < -0x8000_0000 || count > 0x7fff_ffff {
            return Err(PersistenceError);
        }
        i = i + 1;
    }
    let ghost before = staging@;
    staging.append(&mut rows);
    assert(staging@.map_values(|r: NewDownload| r@) =~= before.map_values(|r: NewDownload| r@)
        + staged);
    Ok(n)
}

/// Merges the staging rows into the ledger and returns the crate names and
/// versions that are not in the catalog. All rows are merged or none: where
/// a counter would leave its range the merge fails and the ledger is as it
/// was.
pub fn save_to_version_downloads(staging: &Vec<NewDownload>, conn: &mut Database) -> (result: Result<
    Vec<NameAndVersion>,
    PersistenceError,
>)
    ensures
        final(conn).catalog == old(conn).catalog,
        result is Ok <==> merged(
            old(conn).ledger@,
            old(conn).catalog@,
            staging@.map_values(|r: NewDownload| r@),
        ) is Some,
        result matches Ok(failed) ==> Some(final(conn).ledger@) == merged(
            old(conn).ledger@,
            old(conn).catalog@,
            staging@.map_values(|r: NewDownload| r@),
        ) && failed@.map_values(|p: NameAndVersion| p@) == unmatched(
            old(conn).catalog@,
            staging@.map_values(|r: NewDownload| r@),
        ),
        result is Err ==> final(conn).ledger@ == old(conn).ledger@,
{
    let ghost rows = staging@.map_values(|r: NewDownload| r@);
    let ghost catalog = conn.catalog@;
    let ghost start = conn.ledger@;
    let mut next = conn.ledger.duplicate();
    let mut failed: Vec<NameAndVersion> = Vec::new();
    let n = staging.len();
    let mut i: usize = 0;
    assert(rows.take(0) =~= Seq::<NewDownloadView>::empty());
    assert(failed@.map_values(|p: NameAndVersion| p@) =~= Seq::<NameAndVersionView>::empty());
    while i < n
        invariant
            n == staging.len(),
            i <= n,
            rows == staging@.map_values(|r: NewDownload| r@),
            *conn == *old(conn),
            catalog == conn.catalog@,
            start == conn.ledger@,
            merged(start, catalog, rows.take(i as int)) == Some(next@),
            failed@.map_values(|p: NameAndVersion| p@) == unmatched(catalog, rows.take(i as int)),
        decreases n - i,
    {
        let row = &staging[i];
        let ghost seen = failed@.map_values(|p: NameAndVersion| p@);
        proof {
            assert(rows.take(i + 1).drop_last() =~= rows.take(i as int));
            assert(rows.take(i + 1).last() == row@);
        }
        match conn.catalog.resolve(row.name.as_str(), row.version.as_str()) {
            Some(version_id) => {
                if !next.credit(LedgerKey { version_id, date: row.date }, row.downloads) {
                    proof {
                        lemma_merge_fails_on(start, catalog, rows, i + 1);
                    }
                    return Err(PersistenceError);
                }
            },
            None => {
                failed.push(NameAndVersion { name: row.name.clone(), version: row.version.clone() });
                assert(failed@.map_values(|p: NameAndVersion| p@) =~= seen.push(
                    NameAndVersionView { name: row@.name, version: row@.version },
                ));
            },
        }
        i = i + 1;
    }
    assert(rows.take(n as int) =~= rows);
    conn.ledger = next;
    Ok(failed)
}

/// A merge that fails on some of the first rows fails on all of them.
proof fn lemma_merge_fails_on(
    ledger: Map<LedgerKey, VersionDownload>,
    catalog: Seq<CatalogVersionView>,
    rows: Seq<NewDownloadView>,
    n: int,
)
    requires
        0 <= n <= rows.len(),
        merged(ledger, catalog, rows.take(n)) is None,
    ensures
        merged(ledger, catalog, rows) is None,
    decreases rows.len() - n,
{
    if n < rows.len() {
        assert(rows.take(n + 1).drop_last() =~= rows.take(n));
        lemma_merge_fails_on(ledger, catalog, rows, n + 1);
    } else {
        assert(rows.take(n) =~= rows);
    }
}

/// Saves an aggregate to the ledger: makes the staging relation, loads the
/// aggregate into it, and merges it into the ledger. Returns the crate names
/// and versions that are not in the catalog; they are no failure. The save
/// is all or nothing: where a step fails, the ledger is as it was.
pub fn save_downloads(downloads: DownloadsMap, conn: &mut Database) -> (result: Result<
    Vec<NameAndVersion>,
    SaveError,
>)
    ensures
        final(conn).catalog == old(conn).catalog,
        match result {
            Ok(failed) => {
                &&& counts_fit(downloads@)
                &&& all_fit(staged_rows(downloads@))
                &&& Some(final(conn).ledger@) == merged(
                    old(conn).ledger@,
                    old(conn).catalog@,
                    staged_rows(downloads@),
                )
                &&& failed@.map_values(|p: NameAndVersion| p@) == unmatched(
                    old(conn).catalog@,
                    staged_rows(downloads@),
                )
            },
            Err(SaveError::CreateStaging) => false,
            Err(SaveError::FillStaging) => {
                &&& !counts_fit(downloads@)
                &&& final(conn).ledger@ == old(conn).ledger@
            },
            Err(SaveError::MergeLedger) => {
                &&& counts_fit(downloads@)
                &&& merged(old(conn).ledger@, old(conn).catalog@, staged_rows(downloads@)) is None
                &&& final(conn).ledger@ == old(conn).ledger@
            },
        },
{
    let mut staging = create_temp_downloads_table();
    let ghost rows = staged_rows(downloads@);
    match fill_temp_downloads_table(downloads, &mut staging) {
        Ok(_) => {},
        Err(_) => {
            return Err(SaveError::FillStaging);
        },
    }
    assert(staging@.map_values(|r: NewDownload| r@) =~= rows);
    match save_to_version_downloads(&staging, conn) {
        Ok(failed) => Ok(failed),
        Err(_) => Err(SaveError::MergeLedger),
    }
}

} // verus!
