//! Rows of the staging relation, from which a merge reads.

use crate::date::Date;
use crate::aggregate::RecordView;
use crate::downloads::{DownloadRecord, DownloadsMap};
use crate::version::version_text;
use vstd::prelude::*;

verus! {

/// What a `NewDownload` is in contracts.
pub struct NewDownloadView {
    pub name: Seq<char>,
    pub version: Seq<char>,
    pub date: Date,
    pub downloads: int,
}

/// A row of the staging relation: an entry of the aggregate with its version
/// as text and its count as a signed 64-bit number, which is never
/// negative.
#[derive(Debug)]
pub struct NewDownload {
    pub name: String,
    pub version: String,
    pub date: Date,
    pub downloads: i64,
}

impl View for NewDownload {
    type V = NewDownloadView;

    open spec fn view(&self) -> NewDownloadView {
        NewDownloadView {
            name: self.name@,
            version: self.version@,
            date: self.date,
            downloads: self.downloads as int,
        }
    }
}

/// A count as the signed 64-bit number of a staging row: the count itself,
/// and `i64::MAX` for every count above it. It is never negative.
pub open spec fn capped(count: nat) -> int {
    if count <= i64::MAX {
        count as int
    } else {
        i64::MAX as int
    }
}

/// The staging row of an entry of the aggregate.
pub open spec fn staged(record: RecordView) -> NewDownloadView {
    NewDownloadView {
        name: record.name,
        version: version_text(record.version),
        date: record.date,
        downloads: capped(record.count),
    }
}

/// The staging rows of the entries of an aggregate, in their order.
pub open spec fn staged_rows(entries: Seq<RecordView>) -> Seq<NewDownloadView> {
    entries.map_values(|r: RecordView| staged(r))
}

impl NewDownload {
    /// The staging row of `record`.
    pub fn from(record: DownloadRecord) -> (row: NewDownload)
        ensures
            row@ == staged(record@),
            row.downloads >= 0,
            row.downloads == record.count || (row.downloads == i64::MAX && record.count > i64::MAX),
    {
        let downloads: i64 = if record.count <= 0x7fff_ffff_ffff_ffff {
            record.count as i64
        } else {
            i64::MAX
        };
        NewDownload {
            version: record.version.to_text(),
            name: record.name,
            date: record.date,
            downloads,
        }
    }
}

/// The staging rows of the entries of `downloads`, in their order.
pub fn staging_rows(downloads: DownloadsMap) -> (rows: Vec<NewDownload>)
    ensures
        rows@.map_values(|r: NewDownload| r@) == staged_rows(downloads@),
{
    let ghost entries = downloads@;
    let records = downloads.into_vec();
    let mut rows: Vec<NewDownload> = Vec::new();
    let n = records.len();
    let mut i: usize = 0;
    while i < n
        invariant
            n == records.len(),
            i <= n,
            records@.map_values(|r: DownloadRecord| r@) == entries,
            rows@.len() == i,
            forall|k: int| 0 <= k < i ==> (#[trigger] rows@[k])@ == staged(entries[k]),
        decreases n - i,
    {
        assert(entries[i as int] == records@[i as int]@);
        rows.push(NewDownload::from(records[i].duplicate()));
        i = i + 1;
    }
    assert(rows@.map_values(|r: NewDownload| r@) =~= staged_rows(entries));
    rows
}

} // verus!
