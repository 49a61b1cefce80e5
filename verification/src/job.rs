//! The job that processes one log file, as a machine of phases: each event
//! that the outside reports decides the next phase and what to do next.

use crate::compression::{decompressor_for, Decompressor};
use crate::downloads::{stats_of, DownloadRecord, DownloadStats, DownloadsMap};
use crate::merge::{NameAndVersion, SaveError};
use crate::path::{canonical, extension, extension_of, is_object_path, parse_path};
use crate::ranking::top;
use crate::store::{kind_of, store_error_kind, StoreErrorKind};
use crate::text::{debug_string, debug_text};
use vstd::prelude::*;
use vstd::string::*;

verus! {

/// How many entries a run reports where it does not write.
pub const TOP_DOWNLOADS: usize = 30;

/// One log file to process: the region and the bucket of the store that
/// holds it, where the store is remote, and its path.
#[derive(Debug)]
pub struct ProcessCdnLog {
    pub region: String,
    pub bucket: String,
    pub path: String,
}

impl ProcessCdnLog {
    pub fn new(region: String, bucket: String, path: String) -> (job: ProcessCdnLog)
        ensures
            job.region == region,
            job.bucket == bucket,
            job.path == path,
    {
        ProcessCdnLog { region, bucket, path }
    }
}

/// Why a run failed.
#[derive(Debug)]
pub enum JobError {
    /// The path of the job is no path of an object.
    InvalidPath { path: String },
    /// The store has no file at the path.
    NotFound { path: String },
    /// The store could not be asked for the file.
    Transport { path: String },
    /// The extension of the file names a format that cannot be decompressed.
    UnsupportedFormat { extension: String },
    /// The log could not be read to its end.
    Count,
    /// No connection to the database could be had; nothing was saved.
    Connection,
    /// The aggregate could not be saved; nothing of it is in the ledger.
    Persistence { step: SaveError },
    /// An event was reported that the phase does not wait for.
    UnexpectedEvent,
}

impl JobError {
    /// The failure in words, with the path or the extension that it is
    /// about. A path that could not be read is given as `{:?}` prints the
    /// string; a path that was asked of the store is given as `{:?}` prints
    /// the path of the object.
    pub fn message(&self) -> (text: String)
        ensures
            text@ == match *self {
                JobError::InvalidPath { path } => "Failed to parse path: "@ + debug_text(path@),
                JobError::NotFound { path } => "Failed to request metadata for Path { raw: "@
                    + debug_text(path@) + " }"@,
                JobError::Transport { path } => "Failed to request metadata for Path { raw: "@
                    + debug_text(path@) + " }"@,
                JobError::UnsupportedFormat { extension } => "Unsupported compression extension: "@
                    + extension@,
                JobError::Count => "Failed to count downloads"@,
                JobError::Connection => "Failed to get a database connection"@,
                JobError::Persistence { step } => match step {
                    SaveError::CreateStaging => "Failed to create temp_downloads table"@,
                    SaveError::FillStaging => "Failed to fill temp_downloads table"@,
                    SaveError::MergeLedger => "Failed to save temp_downloads to version_downloads table"@,
                },
                JobError::UnexpectedEvent => "Unexpected event"@,
            },
    {
        match self {
            JobError::InvalidPath { path } => "Failed to parse path: ".to_owned().concat(
                debug_string(path.as_str()).as_str(),
            ),
            JobError::NotFound { path } => metadata_message(path.as_str()),
            JobError::Transport { path } => metadata_message(path.as_str()),
            JobError::UnsupportedFormat { extension } => "Unsupported compression extension: "
                .to_owned().concat(extension.as_str()),
            JobError::Count => "Failed to count downloads".to_owned(),
            JobError::Connection => "Failed to get a database connection".to_owned(),
            JobError::Persistence { step } => step.message().to_owned(),
            JobError::UnexpectedEvent => "Unexpected event".to_owned(),
        }
    }
}

fn metadata_message(path: &str) -> (text: String)
    ensures
        text@ == "Failed to request metadata for Path { raw: "@ + debug_text(path@) + " }"@,
{
    let mut text = "Failed to request metadata for Path { raw: ".to_owned();
    text.append(debug_string(path).as_str());
    text.append(" }");
    text
}

/// How a run succeeded.
#[derive(Debug)]
pub enum Outcome {
    /// The log held no downloads: nothing was written, nothing reported.
    NoDownloads,
    /// The aggregate is in the ledger, but for the crates and versions that
    /// the catalog does not know.
    Saved { stats: DownloadStats, unmatched: Vec<NameAndVersion> },
    /// Nothing was written; these are the entries with the most downloads.
    Reported { stats: DownloadStats, top: Vec<DownloadRecord> },
}

/// Where a run stands.
#[derive(Debug)]
pub enum Phase {
    /// The store was asked whether the file exists.
    AwaitingMetadata { path: String, writing_enabled: bool },
    /// The file is being read and its downloads counted.
    AwaitingCount { writing_enabled: bool },
    /// The aggregate is being saved.
    AwaitingSave { stats: DownloadStats },
    Succeeded(Outcome),
    Failed(JobError),
}

/// What the outside is to do next.
#[derive(Debug)]
pub enum Action {
    /// Ask the store for the metadata of the file at `path`.
    FetchMetadata { path: String },
    /// Read the file at `path` through the decompressor, and count its
    /// downloads.
    Count { path: String, decompressor: Decompressor },
    /// Report the figures of the aggregate, then save it to the ledger, in
    /// one transaction.
    Save { downloads: DownloadsMap, stats: DownloadStats },
    /// Nothing: the run has ended.
    Finish,
}

/// What the outside reports.
#[derive(Debug)]
pub enum Event {
    MetadataFound,
    MetadataFailed { kind: StoreErrorKind },
    Counted { downloads: DownloadsMap },
    CountFailed,
    /// No connection to the database could be had for the save.
    ConnectionFailed,
    Saved { unmatched: Vec<NameAndVersion> },
    SaveFailed { step: SaveError },
}

/// Whether a run in this phase may still write to the ledger.
pub open spec fn may_write(phase: Phase) -> bool {
    match phase {
        Phase::AwaitingMetadata { writing_enabled, .. } => writing_enabled,
        Phase::AwaitingCount { writing_enabled } => writing_enabled,
        Phase::AwaitingSave { .. } => true,
        Phase::Succeeded(_) => false,
        Phase::Failed(_) => false,
    }
}

/// Whether a run has ended.
pub open spec fn ended(phase: Phase) -> bool {
    phase is Succeeded || phase is Failed
}

/// How a run begins: with a path that is the path of an object, by asking
/// the store for the file; with any other, by failing.
pub open spec fn begins(job: ProcessCdnLog, writing_enabled: bool, first: Phase, action: Action) -> bool {
    if is_object_path(job.path@) {
        &&& first matches Phase::AwaitingMetadata { path, writing_enabled: w }
        &&& path@ == canonical(job.path@)
        &&& w == writing_enabled
        &&& action == (Action::FetchMetadata { path })
    } else {
        &&& first matches Phase::Failed(JobError::InvalidPath { path })
        &&& path@ == job.path@
        &&& action == Action::Finish
    }
}

/// What follows an event that the phase does not wait for.
pub open spec fn rejects(next: Phase, action: Action) -> bool {
    next == Phase::Failed(JobError::UnexpectedEvent) && action == Action::Finish
}

/// How a run goes on: the phase `next` and the action `action` follow the
/// event `event` in the phase `phase`.
pub open spec fn follows(phase: Phase, event: Event, next: Phase, action: Action) -> bool {
    match phase {
        Phase::AwaitingMetadata { path, writing_enabled } => match event {
            Event::MetadataFound => match decompressor_for(extension_of(path@)) {
                Some(decompressor) => {
                    &&& next == (Phase::AwaitingCount { writing_enabled })
                    &&& action == (Action::Count { path, decompressor })
                },
                None => {
                    &&& next matches Phase::Failed(JobError::UnsupportedFormat { extension })
                    &&& Some(extension@) == extension_of(path@)
                    &&& action == Action::Finish
                },
            },
            Event::MetadataFailed { kind: StoreErrorKind::NotFound } => {
                &&& next == Phase::Failed(JobError::NotFound { path })
                &&& action == Action::Finish
            },
            Event::MetadataFailed { kind: StoreErrorKind::Transport } => {
                &&& next == Phase::Failed(JobError::Transport { path })
                &&& action == Action::Finish
            },
            _ => rejects(next, action),
        },
        Phase::AwaitingCount { writing_enabled } => match event {
            Event::Counted { downloads } => if downloads@.len() == 0 {
                &&& next == Phase::Succeeded(Outcome::NoDownloads)
                &&& action == Action::Finish
            } else if writing_enabled {
                &&& next == (Phase::AwaitingSave { stats: stats_of(downloads@) })
                &&& action == (Action::Save { downloads, stats: stats_of(downloads@) })
            } else {
                &&& next matches Phase::Succeeded(Outcome::Reported { stats, top: report })
                &&& stats == stats_of(downloads@)
                &&& report@.map_values(|r: DownloadRecord| r@) == top(
                    downloads@,
                    TOP_DOWNLOADS as nat,
                )
                &&& action == Action::Finish
            },
            Event::CountFailed => {
                &&& next == Phase::Failed(JobError::Count)
                &&& action == Action::Finish
            },
            _ => rejects(next, action),
        },
        Phase::AwaitingSave { stats } => match event {
            Event::Saved { unmatched } => {
                &&& next == Phase::Succeeded(Outcome::Saved { stats, unmatched })
                &&& action == Action::Finish
            },
            Event::SaveFailed { step } => {
                &&& next == Phase::Failed(JobError::Persistence { step })
                &&& action == Action::Finish
            },
            Event::ConnectionFailed => {
                &&& next == Phase::Failed(JobError::Connection)
                &&& action == Action::Finish
            },
            _ => rejects(next, action),
        },
        Phase::Succeeded(_) => next == phase && action == Action::Finish,
        Phase::Failed(_) => next == phase && action == Action::Finish,
    }
}

/// Begins a run of `job`.
pub fn start(job: &ProcessCdnLog, writing_enabled: bool) -> (begun: (Phase, Action))
    ensures
        begins(*job, writing_enabled, begun.0, begun.1),
{
    match parse_path(job.path.as_str()) {
        Ok(path) => {
            let asked = path.clone();
            (Phase::AwaitingMetadata { path, writing_enabled }, Action::FetchMetadata { path: asked })
        },
        Err(e) => (Phase::Failed(JobError::InvalidPath { path: e.path }), Action::Finish),
    }
}

/// Takes a run one step on.
pub fn step(phase: Phase, event: Event) -> (stepped: (Phase, Action))
    ensures
        follows(phase, event, stepped.0, stepped.1),
{
    match phase {
        Phase::AwaitingMetadata { path, writing_enabled } => match event {
            Event::MetadataFound => {
                let ext = extension(path.as_str());
                let chosen = match &ext {
                    Some(e) => Decompressor::from_extension(Some(e.as_str())),
                    None => Decompressor::from_extension(None),
                };
                match chosen {
                    Ok(decompressor) => (
                        Phase::AwaitingCount { writing_enabled },
                        Action::Count { path, decompressor },
                    ),
                    Err(e) => (
                        Phase::Failed(JobError::UnsupportedFormat { extension: e.extension }),
                        Action::Finish,
                    ),
                }
            },
            Event::MetadataFailed { kind } => match kind {
                StoreErrorKind::NotFound => (
                    Phase::Failed(JobError::NotFound { path }),
                    Action::Finish,
                ),
                StoreErrorKind::Transport => (
                    Phase::Failed(JobError::Transport { path }),
                    Action::Finish,
                ),
            },
            _ => (Phase::Failed(JobError::UnexpectedEvent), Action::Finish),
        },
        Phase::AwaitingCount { writing_enabled } => match event {
            Event::Counted { downloads } => {
                if downloads.is_empty() {
                    (Phase::Succeeded(Outcome::NoDownloads), Action::Finish)
                } else {
                    let stats = downloads.stats();
                    if writing_enabled {
                        (Phase::AwaitingSave { stats }, Action::Save { downloads, stats })
                    } else {
                        let report = downloads.top_downloads(TOP_DOWNLOADS);
                        (Phase::Succeeded(Outcome::Reported { stats, top: report }), Action::Finish)
                    }
                }
            },
            Event::CountFailed => (Phase::Failed(JobError::Count), Action::Finish),
            _ => (Phase::Failed(JobError::UnexpectedEvent), Action::Finish),
        },
        Phase::AwaitingSave { stats } => match event {
            Event::Saved { unmatched } => (
                Phase::Succeeded(Outcome::Saved { stats, unmatched }),
                Action::Finish,
            ),
            Event::SaveFailed { step } => (
                Phase::Failed(JobError::Persistence { step }),
                Action::Finish,
            ),
            Event::ConnectionFailed => (Phase::Failed(JobError::Connection), Action::Finish),
            _ => (Phase::Failed(JobError::UnexpectedEvent), Action::Finish),
        },
        Phase::Succeeded(outcome) => (Phase::Succeeded(outcome), Action::Finish),
        Phase::Failed(error) => (Phase::Failed(error), Action::Finish),
    }
}

/// The event for a request for metadata that the store answered with an
/// error: a missing file is told from every other failure.
pub fn metadata_failed(error: &object_store::Error) -> (event: Event)
    ensures
        event == (Event::MetadataFailed { kind: kind_of(*error) }),
{
    Event::MetadataFailed { kind: store_error_kind(error) }
}

/// A run that may not write never asks for a save, and never comes to a
/// phase in which it may write.
pub proof fn lemma_report_only_never_saves(phase: Phase, event: Event, next: Phase, action: Action)
    requires
        follows(phase, event, next, action),
        !may_write(phase),
    ensures
        !(action is Save),
        !may_write(next),
{
}

/// A run asks for a save in one case only: it may write, and the count
/// came back with an aggregate that is not empty; it then saves that
/// aggregate.
pub proof fn lemma_save_only_of_counted(phase: Phase, event: Event, next: Phase, action: Action)
    requires
        follows(phase, event, next, action),
        action is Save,
    ensures
        phase == (Phase::AwaitingCount { writing_enabled: true }),
        event matches Event::Counted { downloads } && downloads@.len() > 0 && action == (
        Action::Save { downloads, stats: stats_of(downloads@) }),
{
}

/// A log without downloads ends the run with success, whether or not the
/// run may write: nothing is saved and nothing reported.
pub proof fn lemma_empty_log_is_no_op(
    writing_enabled: bool,
    downloads: DownloadsMap,
    next: Phase,
    action: Action,
)
    requires
        downloads@.len() == 0,
        follows(Phase::AwaitingCount { writing_enabled }, Event::Counted { downloads }, next, action),
    ensures
        next == Phase::Succeeded(Outcome::NoDownloads),
        action == Action::Finish,
{
}

/// A file whose extension names no supported format fails the run when its
/// metadata arrives: no reading and no counting is asked for.
pub proof fn lemma_unsupported_format_fails_first(
    path: String,
    writing_enabled: bool,
    next: Phase,
    action: Action,
)
    requires
        decompressor_for(extension_of(path@)) is None,
        follows(Phase::AwaitingMetadata { path, writing_enabled }, Event::MetadataFound, next, action),
    ensures
        next matches Phase::Failed(JobError::UnsupportedFormat { .. }),
        action == Action::Finish,
{
}

/// A missing file and a store that cannot be asked end the run with
/// different errors, each with the path that was asked for.
pub proof fn lemma_missing_file_is_told_apart(
    path: String,
    writing_enabled: bool,
    kind: StoreErrorKind,
    next: Phase,
    action: Action,
)
    requires
        follows(
            Phase::AwaitingMetadata { path, writing_enabled },
            Event::MetadataFailed { kind },
            next,
            action,
        ),
    ensures
        kind == StoreErrorKind::NotFound <==> next == Phase::Failed(JobError::NotFound { path }),
        kind == StoreErrorKind::Transport <==> next == Phase::Failed(JobError::Transport { path }),
        action == Action::Finish,
{
}

} // verus!
