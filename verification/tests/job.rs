use cdn_log_ingest::catalog::Catalog;
use cdn_log_ingest::compression::Decompressor;
use cdn_log_ingest::date::Date;
use cdn_log_ingest::downloads::{DownloadRecord, DownloadsMap};
use cdn_log_ingest::job::{
    metadata_failed, start, step, Action, Event, JobError, Outcome, Phase, ProcessCdnLog,
    TOP_DOWNLOADS,
};
use cdn_log_ingest::merge::{save_downloads, Database, SaveError};
use cdn_log_ingest::store::StoreErrorKind;
use cdn_log_ingest::version::Version;
use object_store::ObjectStore;

const CLOUDFRONT_PATH: &str =
    "cloudfront/static.crates.io/E35K556QRQDZXW.2024-01-16-16.d01d5f13.gz";

fn day(year: i32, month: u32, day: u32) -> Date {
    Date::from_ymd_opt(year, month, day).unwrap()
}

fn record(name: &str, version: (u64, u64, u64), date: Date, count: u64) -> DownloadRecord {
    DownloadRecord::new(
        name.to_string(),
        Version::new(version.0, version.1, version.2),
        date,
        count,
    )
}

/// The downloads that the log of the fixture holds, one record for each.
fn counted() -> DownloadsMap {
    DownloadsMap::from_records(vec![
        record("bindgen", (0, 65, 1), day(2024, 1, 16), 1),
        record("quick-error", (1, 2, 3), day(2024, 1, 16), 1),
        record("quick-error", (1, 2, 3), day(2024, 1, 17), 1),
        record("tracing-core", (0, 1, 32), day(2024, 1, 16), 1),
        record("quick-error", (1, 2, 3), day(2024, 1, 16), 1),
    ])
    .unwrap()
}

fn dummy_crates_and_versions() -> Database {
    let mut catalog = Catalog::new();
    catalog.add_version("bindgen".to_string(), "0.65.1".to_string()).unwrap();
    catalog.add_version("tracing-core".to_string(), "0.1.32".to_string()).unwrap();
    catalog.add_version("quick-error".to_string(), "1.2.3".to_string()).unwrap();
    Database::new(catalog)
}

/// Runs a job to its end: the file exists, counting gives `downloads`, and
/// a save goes to `db`.
fn run(path: &str, downloads: DownloadsMap, db: &mut Database, writing_enabled: bool) -> Phase {
    let job = ProcessCdnLog::new("us-west-1".to_string(), "bucket".to_string(), path.to_string());
    let (mut phase, mut action) = start(&job, writing_enabled);
    let mut downloads = Some(downloads);
    loop {
        let event = match action {
            Action::FetchMetadata { .. } => Event::MetadataFound,
            Action::Count { .. } => Event::Counted { downloads: downloads.take().unwrap() },
            Action::Save { downloads, .. } => match save_downloads(downloads, db) {
                Ok(unmatched) => Event::Saved { unmatched },
                Err(step) => Event::SaveFailed { step },
            },
            Action::Finish => return phase,
        };
        (phase, action) = step(phase, event);
    }
}

fn all_version_downloads(db: &Database) -> Vec<String> {
    let names = [("bindgen", "0.65.1"), ("tracing-core", "0.1.32"), ("quick-error", "1.2.3")];
    let mut rows: Vec<(String, String, i32, i32, Date, bool)> = db
        .ledger
        .to_vec()
        .into_iter()
        .map(|r| {
            let (name, num) = names[(r.version_id - 1) as usize];
            (name.to_string(), num.to_string(), r.downloads, r.counted, r.date, r.processed)
        })
        .collect();
    rows.sort_by_key(|r| (r.0.clone(), r.1.clone(), r.4.year, r.4.month, r.4.day));
    rows.into_iter()
        .map(|(name, version, downloads, counted, date, processed)| {
            format!(
                "{name} | {version} | {downloads} | {counted} | {:04}-{:02}-{:02} | {processed}",
                date.year, date.month, date.day
            )
        })
        .collect()
}

#[test]
fn test_process_cdn_log() {
    let mut db = dummy_crates_and_versions();
    let writing_enabled = true;
    let end = run(CLOUDFRONT_PATH, counted(), &mut db, writing_enabled);
    assert!(matches!(end, Phase::Succeeded(Outcome::Saved { .. })));
    assert_eq!(
        all_version_downloads(&db),
        vec![
            "bindgen | 0.65.1 | 1 | 0 | 2024-01-16 | false",
            "quick-error | 1.2.3 | 2 | 0 | 2024-01-16 | false",
            "quick-error | 1.2.3 | 1 | 0 | 2024-01-17 | false",
            "tracing-core | 0.1.32 | 1 | 0 | 2024-01-16 | false",
        ]
    );
}

#[test]
fn test_process_cdn_log_report_only() {
    let mut db = dummy_crates_and_versions();
    let writing_enabled = false;
    let end = run(CLOUDFRONT_PATH, counted(), &mut db, writing_enabled);
    assert!(matches!(end, Phase::Succeeded(Outcome::Reported { .. })));
    assert!(all_version_downloads(&db).is_empty());
}

#[test]
fn report_only_reports_the_same_entries_and_figures() {
    let mut db = dummy_crates_and_versions();
    match run(CLOUDFRONT_PATH, counted(), &mut db, false) {
        Phase::Succeeded(Outcome::Reported { stats, top }) => {
            assert_eq!(stats.total_downloads, 5);
            assert_eq!(stats.num_crates, 3);
            assert_eq!(stats.total_inserts, 4);
            let lines: Vec<String> = top.iter().map(|r| r.report_line()).collect();
            assert_eq!(
                lines,
                vec![
                    "2024-01-16  quick-error@1.2.3 .. 2",
                    "2024-01-16  bindgen@0.65.1 .. 1",
                    "2024-01-17  quick-error@1.2.3 .. 1",
                    "2024-01-16  tracing-core@0.1.32 .. 1",
                ]
            );
            let top: Vec<(String, String, Date, u64)> =
                top.into_iter().map(|r| (r.name, r.version.to_text(), r.date, r.count)).collect();
            assert_eq!(
                top,
                vec![
                    ("quick-error".to_string(), "1.2.3".to_string(), day(2024, 1, 16), 2),
                    ("bindgen".to_string(), "0.65.1".to_string(), day(2024, 1, 16), 1),
                    ("quick-error".to_string(), "1.2.3".to_string(), day(2024, 1, 17), 1),
                    ("tracing-core".to_string(), "0.1.32".to_string(), day(2024, 1, 16), 1),
                ]
            );
        }
        other => panic!("the run ended in {other:?}"),
    }
    assert_eq!(db.ledger.len(), 0);
}

#[test]
fn write_mode_reports_figures_and_unmatched_pairs() {
    let mut catalog = Catalog::new();
    catalog.add_version("bindgen".to_string(), "0.65.1".to_string()).unwrap();
    let mut db = Database::new(catalog);
    match run(CLOUDFRONT_PATH, counted(), &mut db, true) {
        Phase::Succeeded(Outcome::Saved { stats, unmatched }) => {
            assert_eq!(stats.total_downloads, 5);
            assert_eq!(stats.num_crates, 3);
            assert_eq!(stats.total_inserts, 4);
            let unmatched: Vec<String> = unmatched.iter().map(|p| p.to_text()).collect();
            assert_eq!(
                unmatched,
                vec!["quick-error@1.2.3", "quick-error@1.2.3", "tracing-core@0.1.32"]
            );
        }
        other => panic!("the run ended in {other:?}"),
    }
    assert_eq!(db.ledger.len(), 1);
    assert_eq!(db.ledger.get(1, day(2024, 1, 16)).unwrap().downloads, 1);
}

#[test]
fn an_empty_log_is_a_successful_no_op() {
    for writing_enabled in [true, false] {
        let mut db = dummy_crates_and_versions();
        let end = run(CLOUDFRONT_PATH, DownloadsMap::new(), &mut db, writing_enabled);
        assert!(matches!(end, Phase::Succeeded(Outcome::NoDownloads)));
        assert_eq!(db.ledger.len(), 0);
    }
}

#[test]
fn report_only_takes_the_top_thirty() {
    assert_eq!(TOP_DOWNLOADS, 30);
    let date = day(2024, 1, 16);
    let mut downloads = DownloadsMap::new();
    for i in 0..40u64 {
        downloads.add(record(&format!("crate{i}"), (1, 0, 0), date, i)).unwrap();
    }
    let mut db = dummy_crates_and_versions();
    match run("logs/today.log.zst", downloads, &mut db, false) {
        Phase::Succeeded(Outcome::Reported { stats, top }) => {
            assert_eq!(stats.total_inserts, 40);
            assert_eq!(top.len(), 30);
            let counts: Vec<u64> = top.iter().map(|r| r.count).collect();
            let expected: Vec<u64> = (10..40).rev().collect();
            assert_eq!(counts, expected);
        }
        other => panic!("the run ended in {other:?}"),
    }
}

#[test]
fn a_run_begins_by_asking_for_the_metadata() {
    let job = ProcessCdnLog::new(
        "us-west-1".to_string(),
        "bucket".to_string(),
        format!("/{CLOUDFRONT_PATH}"),
    );
    assert_eq!(job.region, "us-west-1");
    assert_eq!(job.bucket, "bucket");
    assert_eq!(job.path, format!("/{CLOUDFRONT_PATH}"));
    match start(&job, true) {
        (Phase::AwaitingMetadata { path, writing_enabled }, Action::FetchMetadata { path: asked }) => {
            assert_eq!(path, CLOUDFRONT_PATH);
            assert_eq!(asked, CLOUDFRONT_PATH);
            assert!(writing_enabled);
        }
        other => panic!("the run began with {other:?}"),
    }
}

#[test]
fn a_path_that_is_no_path_fails_the_run_at_once() {
    let job = ProcessCdnLog::new(String::new(), String::new(), "logs//today.gz".to_string());
    match start(&job, true) {
        (Phase::Failed(error), Action::Finish) => {
            assert!(matches!(&error, JobError::InvalidPath { path } if path == "logs//today.gz"));
            assert_eq!(error.message(), "Failed to parse path: \"logs//today.gz\"");
            assert_eq!(error.message(), format!("Failed to parse path: {:?}", "logs//today.gz"));
        }
        other => panic!("the run began with {other:?}"),
    }
}

#[test]
fn the_decompressor_goes_by_the_extension() {
    for (path, expected) in [
        ("logs/a.gz", Decompressor::Gzip),
        ("logs/a.log.zst", Decompressor::Zstd),
        ("logs/plain", Decompressor::Passthrough),
        ("logs.gz/plain", Decompressor::Passthrough),
    ] {
        let phase = Phase::AwaitingMetadata { path: path.to_string(), writing_enabled: false };
        match step(phase, Event::MetadataFound) {
            (Phase::AwaitingCount { writing_enabled }, Action::Count { path: read, decompressor }) => {
                assert!(!writing_enabled);
                assert_eq!(read, path);
                assert_eq!(decompressor, expected);
            }
            other => panic!("the run went on with {other:?}"),
        }
    }
}

#[test]
fn an_unsupported_extension_fails_before_anything_is_read() {
    for writing_enabled in [true, false] {
        let phase =
            Phase::AwaitingMetadata { path: "logs/today.bz2".to_string(), writing_enabled };
        match step(phase, Event::MetadataFound) {
            (Phase::Failed(error), Action::Finish) => {
                assert!(
                    matches!(&error, JobError::UnsupportedFormat { extension } if extension == "bz2")
                );
                assert_eq!(error.message(), "Unsupported compression extension: bz2");
            }
            other => panic!("the run went on with {other:?}"),
        }
    }
}

#[test]
fn a_missing_file_is_not_a_transport_failure() {
    let waiting =
        || Phase::AwaitingMetadata { path: "logs/today.gz".to_string(), writing_enabled: true };
    match step(waiting(), Event::MetadataFailed { kind: StoreErrorKind::NotFound }) {
        (Phase::Failed(error), Action::Finish) => {
            assert!(matches!(&error, JobError::NotFound { path } if path == "logs/today.gz"));
            assert_eq!(
                error.message(),
                "Failed to request metadata for Path { raw: \"logs/today.gz\" }"
            );
        }
        other => panic!("the run went on with {other:?}"),
    }
    match step(waiting(), Event::MetadataFailed { kind: StoreErrorKind::Transport }) {
        (Phase::Failed(error), Action::Finish) => {
            assert!(matches!(&error, JobError::Transport { path } if path == "logs/today.gz"));
        }
        other => panic!("the run went on with {other:?}"),
    }
}

#[test]
fn store_errors_are_told_apart_by_their_variant() {
    let missing = object_store::Error::NotFound {
        path: "logs/today.gz".to_string(),
        source: "no such object".into(),
    };
    assert!(matches!(
        metadata_failed(&missing),
        Event::MetadataFailed { kind: StoreErrorKind::NotFound }
    ));
    let others = [
        object_store::Error::NotImplemented,
        object_store::Error::Generic { store: "S3", source: "connection reset".into() },
        object_store::Error::AlreadyExists { path: "logs/today.gz".to_string(), source: "".into() },
        object_store::Error::NotSupported { source: "".into() },
    ];
    for error in &others {
        assert!(matches!(
            metadata_failed(error),
            Event::MetadataFailed { kind: StoreErrorKind::Transport }
        ));
    }
}

#[test]
fn a_store_in_memory_reports_a_missing_file_as_not_found() {
    let store = object_store::memory::InMemory::new();
    let path = object_store::path::Path::parse(CLOUDFRONT_PATH).unwrap();
    let runtime = tokio::runtime::Builder::new_current_thread().build().unwrap();
    let error = runtime.block_on(store.head(&path)).unwrap_err();
    let phase = Phase::AwaitingMetadata { path: CLOUDFRONT_PATH.to_string(), writing_enabled: true };
    match step(phase, metadata_failed(&error)) {
        (Phase::Failed(JobError::NotFound { path }), Action::Finish) => {
            assert_eq!(path, CLOUDFRONT_PATH)
        }
        other => panic!("the run went on with {other:?}"),
    }
}

#[test]
fn messages_give_paths_as_debug_prints_them() {
    for raw in ["a//b", "a\"b//", "tab\t//", "ä//", "back\\slash//", "\u{7f}", "\n"] {
        let job = ProcessCdnLog::new(String::new(), String::new(), raw.to_string());
        match start(&job, false) {
            (Phase::Failed(error), Action::Finish) => {
                assert_eq!(error.message(), format!("Failed to parse path: {raw:?}"));
            }
            other => panic!("the run began with {other:?}"),
        }
    }
    for raw in ["logs/today.gz", "a\"b/c", "ä/ö.gz", "back\\slash", "a b", ""] {
        let path = object_store::path::Path::parse(raw).unwrap();
        let expected = format!("Failed to request metadata for {path:?}");
        let missing = JobError::NotFound { path: raw.to_string() };
        assert_eq!(missing.message(), expected);
        let unreachable = JobError::Transport { path: raw.to_string() };
        assert_eq!(unreachable.message(), expected);
    }
}

#[test]
fn a_save_is_asked_for_with_the_figures_of_the_aggregate() {
    match step(Phase::AwaitingCount { writing_enabled: true }, Event::Counted { downloads: counted() })
    {
        (Phase::AwaitingSave { stats: kept }, Action::Save { downloads, stats }) => {
            assert_eq!(stats, kept);
            assert_eq!(stats.total_downloads, 5);
            assert_eq!(stats.num_crates, 3);
            assert_eq!(stats.total_inserts, 4);
            assert_eq!(downloads.len(), 4);
        }
        other => panic!("the run went on with {other:?}"),
    }
}

#[test]
fn a_missing_connection_fails_the_run_as_such() {
    let stats = counted().stats();
    let (phase, action) = step(Phase::AwaitingSave { stats }, Event::ConnectionFailed);
    assert!(matches!(action, Action::Finish));
    match phase {
        Phase::Failed(error) => {
            assert!(matches!(error, JobError::Connection));
            assert_eq!(error.message(), "Failed to get a database connection");
        }
        other => panic!("the run went on in {other:?}"),
    }
    let (phase, _) = step(Phase::AwaitingCount { writing_enabled: true }, Event::ConnectionFailed);
    assert!(matches!(phase, Phase::Failed(JobError::UnexpectedEvent)));
}

#[test]
fn a_failed_count_fails_the_run() {
    let (phase, action) = step(Phase::AwaitingCount { writing_enabled: true }, Event::CountFailed);
    assert!(matches!(action, Action::Finish));
    match phase {
        Phase::Failed(error) => {
            assert!(matches!(error, JobError::Count));
            assert_eq!(error.message(), "Failed to count downloads");
        }
        other => panic!("the run went on in {other:?}"),
    }
}

#[test]
fn a_failed_save_fails_the_run_with_its_step() {
    for step_that_failed in
        [SaveError::CreateStaging, SaveError::FillStaging, SaveError::MergeLedger]
    {
        let stats = counted().stats();
        let (phase, action) =
            step(Phase::AwaitingSave { stats }, Event::SaveFailed { step: step_that_failed });
        assert!(matches!(action, Action::Finish));
        match phase {
            Phase::Failed(error) => {
                assert!(
                    matches!(error, JobError::Persistence { step } if step == step_that_failed)
                );
                assert_eq!(error.message(), step_that_failed.message());
            }
            other => panic!("the run went on in {other:?}"),
        }
    }
}

#[test]
fn a_save_that_overflows_fails_the_run_and_leaves_the_ledger() {
    let mut db = dummy_crates_and_versions();
    let downloads = DownloadsMap::from_records(vec![
        record("bindgen", (0, 65, 1), day(2024, 1, 16), 1),
        record("quick-error", (1, 2, 3), day(2024, 1, 16), u32::MAX as u64),
    ])
    .unwrap();
    let end = run(CLOUDFRONT_PATH, downloads, &mut db, true);
    assert!(matches!(
        end,
        Phase::Failed(JobError::Persistence { step: SaveError::FillStaging })
    ));
    assert_eq!(db.ledger.len(), 0);
}

#[test]
fn an_event_out_of_turn_fails_the_run() {
    let stats = counted().stats();
    let cases = vec![
        (Phase::AwaitingMetadata { path: "a.gz".to_string(), writing_enabled: true }, Event::CountFailed),
        (
            Phase::AwaitingMetadata { path: "a.gz".to_string(), writing_enabled: true },
            Event::Counted { downloads: counted() },
        ),
        (Phase::AwaitingCount { writing_enabled: true }, Event::MetadataFound),
        (Phase::AwaitingCount { writing_enabled: false }, Event::Saved { unmatched: Vec::new() }),
        (Phase::AwaitingSave { stats }, Event::Counted { downloads: counted() }),
        (Phase::AwaitingSave { stats }, Event::MetadataFailed { kind: StoreErrorKind::NotFound }),
    ];
    for (phase, event) in cases {
        let (next, action) = step(phase, event);
        assert!(matches!(next, Phase::Failed(JobError::UnexpectedEvent)));
        assert!(matches!(action, Action::Finish));
    }
    assert_eq!(JobError::UnexpectedEvent.message(), "Unexpected event");
}

#[test]
fn a_run_that_has_ended_stays_as_it_is() {
    let (next, action) = step(Phase::Succeeded(Outcome::NoDownloads), Event::MetadataFound);
    assert!(matches!(next, Phase::Succeeded(Outcome::NoDownloads)));
    assert!(matches!(action, Action::Finish));
    let (next, action) =
        step(Phase::Failed(JobError::Count), Event::Counted { downloads: counted() });
    assert!(matches!(next, Phase::Failed(JobError::Count)));
    assert!(matches!(action, Action::Finish));
}
