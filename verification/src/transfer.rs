//! Copying the Quantframe save into Kuantframe in two halves.
//!
//! Staging copies the Quantframe app data into a pending folder and sets a flag;
//! the next launch applies the staged import: it moves the current Kuantframe
//! data to a backup folder and swaps the staged copy in.
//!
//! Both halves are state machines. Each step takes what the file system answered
//! to the previous action and returns the next action to perform, or the final
//! result. The caller performs the actions; every decision is taken here.
use vstd::prelude::*;
use crate::clock::{ClockReading, backup_timestamp, is_backup_stamp};
use crate::paths::{BACKUP_STAMP_FORMAT, BACKUP_DIR_PREFIX, DataPath, DataPathView, display_text, quantframe_path, kuantframe_path, pending_import_path, pending_flag_path, backup_path, backup_name, QUANTFRAME_APP_PATH, KUANTFRAME_APP_PATH, PENDING_IMPORT_DIR, PENDING_IMPORT_FLAG, PENDING_FLAG_CONTENTS};
use crate::text::{concat2, concat3, owned};
use crate::entries::{ListedEntry, ListedEntryView, listed_views};

verus! {

/// Why a save transfer failed.
#[derive(Debug)]
pub enum SaveError {
    /// There is no Quantframe app-data folder.
    NoQuantframeSave { path: DataPath },
    /// The Quantframe app-data folder holds no save.
    NoSaveData { path: DataPath },
    /// A file-system operation on `path` failed while doing `action`.
    Io { path: DataPath, action: String, detail: String },
    /// A file of the Quantframe save could not be copied.
    CopyFailed { from: DataPath, detail: String },
    /// The pending flag was set but the staged copy is gone.
    StagedSaveMissing,
    /// The current Kuantframe data could not be moved to its backup folder.
    BackupFailed { dest: DataPath, detail: String },
    /// The staged copy could not be moved into place.
    ReplaceFailed { detail: String },
}

/// What a [`SaveError`] holds.
pub enum SaveErrorView {
    NoQuantframeSave { path: DataPathView },
    NoSaveData { path: DataPathView },
    Io { path: DataPathView, action: Seq<char>, detail: Seq<char> },
    CopyFailed { from: DataPathView, detail: Seq<char> },
    StagedSaveMissing,
    BackupFailed { dest: DataPathView, detail: Seq<char> },
    ReplaceFailed { detail: Seq<char> },
}

impl View for SaveError {
    type V = SaveErrorView;

    open spec fn view(&self) -> SaveErrorView {
        match self {
            SaveError::NoQuantframeSave { path } => SaveErrorView::NoQuantframeSave { path: path@ },
            SaveError::NoSaveData { path } => SaveErrorView::NoSaveData { path: path@ },
            SaveError::Io { path, action, detail } => SaveErrorView::Io {
                path: path@,
                action: action@,
                detail: detail@,
            },
            SaveError::CopyFailed { from, detail } => SaveErrorView::CopyFailed { from: from@, detail: detail@ },
            SaveError::StagedSaveMissing => SaveErrorView::StagedSaveMissing,
            SaveError::BackupFailed { dest, detail } => SaveErrorView::BackupFailed {
                dest: dest@,
                detail: detail@,
            },
            SaveError::ReplaceFailed { detail } => SaveErrorView::ReplaceFailed { detail: detail@ },
        }
    }
}

/// The message shown for an error.
pub open spec fn error_message(e: SaveErrorView) -> Seq<char> {
    match e {
        SaveErrorView::NoQuantframeSave { path } => "No Quantframe save found at "@ + display_text(path)
            + ". Install or run official Quantframe first, then try again."@,
        SaveErrorView::NoSaveData { path } => "Quantframe folder exists at "@ + display_text(path)
            + " but no save data was found (settings, cache, login, or database)."@,
        SaveErrorView::Io { path, action, detail } => action + ": "@ + display_text(path) + " ("@ + detail
            + ")"@,
        SaveErrorView::CopyFailed { from, detail } => "Could not copy "@ + display_text(from)
            + ". Close Quantframe if it is running, then try again ("@ + detail + ")."@,
        SaveErrorView::StagedSaveMissing =>
            "A Quantframe import was pending, but the staged save is missing. No data was changed."@,
        SaveErrorView::BackupFailed { dest, detail } => "Could not back up current Kuantframe data at "@
            + display_text(dest) + " ("@ + detail + ")"@,
        SaveErrorView::ReplaceFailed { detail } =>
            "Could not replace Kuantframe data with the Quantframe save ("@ + detail + ")"@,
    }
}

impl SaveError {
    /// The message shown for this error.
    pub fn message(&self) -> (r: String)
        ensures
            r@ == error_message(self@),
    {
        match self {
            SaveError::NoQuantframeSave { path } => {
                let d = path.display();
                concat3(
                    "No Quantframe save found at ",
                    d.as_str(),
                    ". Install or run official Quantframe first, then try again.",
                )
            },
            SaveError::NoSaveData { path } => {
                let d = path.display();
                concat3(
                    "Quantframe folder exists at ",
                    d.as_str(),
                    " but no save data was found (settings, cache, login, or database).",
                )
            },
            SaveError::Io { path, action, detail } => {
                let d = path.display();
                let mut r = concat3(action.as_str(), ": ", d.as_str());
                r.append(" (");
                r.append(detail.as_str());
                r.append(")");
                r
            },
            SaveError::CopyFailed { from, detail } => {
                let d = from.display();
                let mut r = concat3(
                    "Could not copy ",
                    d.as_str(),
                    ". Close Quantframe if it is running, then try again (",
                );
                r.append(detail.as_str());
                r.append(").");
                r
            },
            SaveError::StagedSaveMissing => owned(
                "A Quantframe import was pending, but the staged save is missing. No data was changed.",
            ),
            SaveError::BackupFailed { dest, detail } => {
                let d = dest.display();
                let mut r = concat3("Could not back up current Kuantframe data at ", d.as_str(), " (");
                r.append(detail.as_str());
                r.append(")");
                r
            },
            SaveError::ReplaceFailed { detail } => concat3(
                "Could not replace Kuantframe data with the Quantframe save (",
                detail.as_str(),
                ")",
            ),
        }
    }
}

/// A file-system operation the caller performs for a state machine.
#[derive(Debug)]
pub enum Action {
    /// Answer whether the path exists.
    Probe(DataPath),
    /// Answer whether the folder holds a Quantframe save.
    InspectSave(DataPath),
    /// Remove the folder and everything in it.
    RemoveDirAll(DataPath),
    /// Remove the file.
    RemoveFile(DataPath),
    /// Move `from` to `to`.
    Rename { from: DataPath, to: DataPath },
    /// Copy the folder `from` into `to`, leaving out the entries to skip.
    CopyTree { from: DataPath, to: DataPath },
    /// Rename the Quantframe database files in the folder.
    RenameDbFiles(DataPath),
    /// Write `contents` to the file.
    WriteFile { path: DataPath, contents: String },
    /// Create the folder and any missing folders above it.
    CreateDirAll(DataPath),
    /// Read the entries of the folder.
    ListDir(DataPath),
    /// Copy the file `from` to `to`, replacing `to`.
    CopyFile { from: DataPath, to: DataPath },
}

/// What an [`Action`] holds.
pub enum ActionView {
    Probe(DataPathView),
    InspectSave(DataPathView),
    RemoveDirAll(DataPathView),
    RemoveFile(DataPathView),
    Rename { from: DataPathView, to: DataPathView },
    CopyTree { from: DataPathView, to: DataPathView },
    RenameDbFiles(DataPathView),
    WriteFile { path: DataPathView, contents: Seq<char> },
    CreateDirAll(DataPathView),
    ListDir(DataPathView),
    CopyFile { from: DataPathView, to: DataPathView },
}

impl View for Action {
    type V = ActionView;

    open spec fn view(&self) -> ActionView {
        match self {
            Action::Probe(p) => ActionView::Probe(p@),
            Action::InspectSave(p) => ActionView::InspectSave(p@),
            Action::RemoveDirAll(p) => ActionView::RemoveDirAll(p@),
            Action::RemoveFile(p) => ActionView::RemoveFile(p@),
            Action::Rename { from, to } => ActionView::Rename { from: from@, to: to@ },
            Action::CopyTree { from, to } => ActionView::CopyTree { from: from@, to: to@ },
            Action::RenameDbFiles(p) => ActionView::RenameDbFiles(p@),
            Action::WriteFile { path, contents } => ActionView::WriteFile { path: path@, contents: contents@ },
            Action::CreateDirAll(p) => ActionView::CreateDirAll(p@),
            Action::ListDir(p) => ActionView::ListDir(p@),
            Action::CopyFile { from, to } => ActionView::CopyFile { from: from@, to: to@ },
        }
    }
}

/// The paths an action may create, change or remove.
pub open spec fn action_targets(a: ActionView) -> Seq<DataPathView> {
    match a {
        ActionView::Probe(_) => Seq::empty(),
        ActionView::InspectSave(_) => Seq::empty(),
        ActionView::RemoveDirAll(p) => seq![p],
        ActionView::RemoveFile(p) => seq![p],
        ActionView::Rename { from, to } => seq![from, to],
        ActionView::CopyTree { from, to } => seq![to],
        ActionView::RenameDbFiles(p) => seq![p],
        ActionView::WriteFile { path, contents } => seq![path],
        ActionView::CreateDirAll(p) => seq![p],
        ActionView::ListDir(_) => Seq::empty(),
        ActionView::CopyFile { from, to } => seq![to],
    }
}

/// What the caller reports after performing an action.
#[derive(Debug)]
pub enum Event {
    /// The answer to `Probe` or `InspectSave`.
    Answer(bool),
    /// The outcome of a single operation, with the error's text on failure.
    Finished(Result<(), String>),
    /// The outcome of `CopyTree` or `RenameDbFiles`.
    SubtaskFinished(Result<(), SaveError>),
    /// The entries of the folder asked for by `ListDir`, in the order they were
    /// read, or the text of the error that kept the folder from being read.
    Listed(Result<Vec<ListedEntry>, String>),
}

/// What an [`Event`] holds.
pub enum EventView {
    Answer(bool),
    Finished(Result<(), Seq<char>>),
    SubtaskFinished(Result<(), SaveErrorView>),
    Listed(Result<Seq<ListedEntryView>, Seq<char>>),
}

impl View for Event {
    type V = EventView;

    open spec fn view(&self) -> EventView {
        match self {
            Event::Answer(b) => EventView::Answer(*b),
            Event::Finished(r) => EventView::Finished(
                match r {
                    Ok(()) => Ok(()),
                    Err(d) => Err(d@),
                },
            ),
            Event::SubtaskFinished(r) => EventView::SubtaskFinished(
                match r {
                    Ok(()) => Ok(()),
                    Err(e) => Err(e@),
                },
            ),
            Event::Listed(r) => EventView::Listed(
                match r {
                    Ok(v) => Ok(listed_views(v@)),
                    Err(d) => Err(d@),
                },
            ),
        }
    }
}

/// The Quantframe app-data folder of the machine's local data folder.
pub open spec fn source_of(local: DataPathView) -> DataPathView {
    local.join(QUANTFRAME_APP_PATH@)
}

/// The staging folder.
pub open spec fn staging_of(local: DataPathView) -> DataPathView {
    local.join(PENDING_IMPORT_DIR@)
}

/// The pending-import flag file.
pub open spec fn flag_of(local: DataPathView) -> DataPathView {
    local.join(PENDING_IMPORT_FLAG@)
}

/// The Kuantframe app-data folder.
pub open spec fn dest_of(local: DataPathView) -> DataPathView {
    local.join(KUANTFRAME_APP_PATH@)
}

// ---------------------------------------------------------------------------
// Staging
// ---------------------------------------------------------------------------

/// Where staging stands: which answer it waits for.
#[derive(PartialEq, Eq, Structural, Clone, Copy, Debug)]
pub enum StagePhase {
    /// Waits for whether the Quantframe folder exists.
    SourceExists,
    /// Waits for whether the Quantframe folder holds a save.
    SaveCheck,
    /// Waits for whether an earlier staging folder exists.
    StagingExists,
    /// Waits for the earlier staging folder to be removed.
    ClearStaging,
    /// Waits for the copy of the save.
    Copy,
    /// Waits for the database files in the copy to be renamed.
    RenameDb,
    /// Waits for the flag to be written.
    WriteFlag,
    /// Finished.
    Done,
}

/// What staging does next.
#[derive(Debug)]
pub enum StageNext {
    /// Perform the action and report its outcome.
    Perform(Action),
    /// Staging is over: the staging folder, or why it failed.
    Done(Result<DataPath, SaveError>),
}

/// What a [`StageNext`] holds.
pub enum StageNextView {
    Perform(ActionView),
    Done(Result<DataPathView, SaveErrorView>),
}

impl View for StageNext {
    type V = StageNextView;

    open spec fn view(&self) -> StageNextView {
        match self {
            StageNext::Perform(a) => StageNextView::Perform(a@),
            StageNext::Done(r) => StageNextView::Done(
                match r {
                    Ok(p) => Ok(p@),
                    Err(e) => Err(e@),
                },
            ),
        }
    }
}

/// Copies the Quantframe app data into a pending folder and sets a flag so the
/// next launch can replace the Kuantframe data. The live Kuantframe data is left
/// untouched until then.
pub struct StageImport {
    local: DataPath,
    phase: StagePhase,
}

/// What a [`StageImport`] holds.
pub struct StageImportView {
    pub local: DataPathView,
    pub phase: StagePhase,
}

impl View for StageImport {
    type V = StageImportView;

    closed spec fn view(&self) -> StageImportView {
        StageImportView { local: self.local@, phase: self.phase }
    }
}

/// The event kinds staging accepts in each phase.
pub open spec fn stage_expects(phase: StagePhase, e: EventView) -> bool {
    match phase {
        StagePhase::SourceExists | StagePhase::SaveCheck | StagePhase::StagingExists => e is Answer,
        StagePhase::ClearStaging | StagePhase::WriteFlag => e is Finished,
        StagePhase::Copy | StagePhase::RenameDb => e is SubtaskFinished,
        StagePhase::Done => false,
    }
}

/// The first action of staging.
pub open spec fn stage_start(local: DataPathView) -> (StageImportView, StageNextView) {
    (
        StageImportView { local, phase: StagePhase::SourceExists },
        StageNextView::Perform(ActionView::Probe(source_of(local))),
    )
}

/// One step of staging.
pub open spec fn stage_step(s: StageImportView, e: EventView) -> (StageImportView, StageNextView) {
    let local = s.local;
    let go = |phase: StagePhase, a: ActionView| (StageImportView { local, phase }, StageNextView::Perform(a));
    let end = |r: Result<DataPathView, SaveErrorView>|
        (StageImportView { local, phase: StagePhase::Done }, StageNextView::Done(r));
    match (s.phase, e) {
        (StagePhase::SourceExists, EventView::Answer(true)) => go(
            StagePhase::SaveCheck,
            ActionView::InspectSave(source_of(local)),
        ),
        (StagePhase::SourceExists, EventView::Answer(false)) => end(
            Err(SaveErrorView::NoQuantframeSave { path: source_of(local) }),
        ),
        (StagePhase::SaveCheck, EventView::Answer(true)) => go(
            StagePhase::StagingExists,
            ActionView::Probe(staging_of(local)),
        ),
        (StagePhase::SaveCheck, EventView::Answer(false)) => end(
            Err(SaveErrorView::NoSaveData { path: source_of(local) }),
        ),
        (StagePhase::StagingExists, EventView::Answer(true)) => go(
            StagePhase::ClearStaging,
            ActionView::RemoveDirAll(staging_of(local)),
        ),
        (StagePhase::StagingExists, EventView::Answer(false)) => go(
            StagePhase::Copy,
            ActionView::CopyTree { from: source_of(local), to: staging_of(local) },
        ),
        (StagePhase::ClearStaging, EventView::Finished(Ok(()))) => go(
            StagePhase::Copy,
            ActionView::CopyTree { from: source_of(local), to: staging_of(local) },
        ),
        (StagePhase::ClearStaging, EventView::Finished(Err(d))) => end(
            Err(SaveErrorView::Io {
                path: staging_of(local),
                action: "clearing a previous pending import"@,
                detail: d,
            }),
        ),
        (StagePhase::Copy, EventView::SubtaskFinished(Ok(()))) => go(
            StagePhase::RenameDb,
            ActionView::RenameDbFiles(staging_of(local)),
        ),
        (StagePhase::Copy, EventView::SubtaskFinished(Err(err))) => end(Err(err)),
        (StagePhase::RenameDb, EventView::SubtaskFinished(Ok(()))) => go(
            StagePhase::WriteFlag,
            ActionView::WriteFile { path: flag_of(local), contents: PENDING_FLAG_CONTENTS@ },
        ),
        (StagePhase::RenameDb, EventView::SubtaskFinished(Err(err))) => end(Err(err)),
        (StagePhase::WriteFlag, EventView::Finished(Ok(()))) => end(Ok(staging_of(local))),
        (StagePhase::WriteFlag, EventView::Finished(Err(d))) => end(
            Err(SaveErrorView::Io { path: flag_of(local), action: "writing import flag"@, detail: d }),
        ),
        _ => (s, StageNextView::Done(Err(SaveErrorView::StagedSaveMissing))),
    }
}

impl StageImport {
    /// Starts staging an import for the local data folder `local_data`; the
    /// first action asks whether the Quantframe folder exists.
    pub fn start(local_data: &DataPath) -> (r: (StageImport, StageNext))
        ensures
            (r.0@, r.1@) == stage_start(local_data@),
    {
        let m = StageImport { local: local_data.duplicate(), phase: StagePhase::SourceExists };
        let a = Action::Probe(quantframe_path(local_data));
        (m, StageNext::Perform(a))
    }

    /// Where staging stands.
    pub fn phase(&self) -> (r: StagePhase)
        ensures
            r == self@.phase,
    {
        self.phase
    }

    /// Whether `e` is the kind of report staging waits for now.
    pub fn accepts(&self, e: &Event) -> (r: bool)
        ensures
            r == stage_expects(self@.phase, e@),
    {
        match (self.phase, e) {
            (StagePhase::SourceExists, Event::Answer(_)) => true,
            (StagePhase::SaveCheck, Event::Answer(_)) => true,
            (StagePhase::StagingExists, Event::Answer(_)) => true,
            (StagePhase::ClearStaging, Event::Finished(_)) => true,
            (StagePhase::WriteFlag, Event::Finished(_)) => true,
            (StagePhase::Copy, Event::SubtaskFinished(_)) => true,
            (StagePhase::RenameDb, Event::SubtaskFinished(_)) => true,
            _ => false,
        }
    }

    /// Takes the outcome of the last action and decides what comes next.
    pub fn step(&mut self, e: Event) -> (r: StageNext)
        requires
            stage_expects(old(self)@.phase, e@),
        ensures
            (final(self)@, r@) == stage_step(old(self)@, e@),
    {
        match (self.phase, e) {
            (StagePhase::SourceExists, Event::Answer(true)) => {
                self.phase = StagePhase::SaveCheck;
                StageNext::Perform(Action::InspectSave(quantframe_path(&self.local)))
            },
            (StagePhase::SourceExists, Event::Answer(false)) => {
                self.phase = StagePhase::Done;
                StageNext::Done(Err(SaveError::NoQuantframeSave { path: quantframe_path(&self.local) }))
            },
            (StagePhase::SaveCheck, Event::Answer(true)) => {
                self.phase = StagePhase::StagingExists;
                StageNext::Perform(Action::Probe(pending_import_path(&self.local)))
            },
            (StagePhase::SaveCheck, Event::Answer(false)) => {
                self.phase = StagePhase::Done;
                StageNext::Done(Err(SaveError::NoSaveData { path: quantframe_path(&self.local) }))
            },
            (StagePhase::StagingExists, Event::Answer(true)) => {
                self.phase = StagePhase::ClearStaging;
                StageNext::Perform(Action::RemoveDirAll(pending_import_path(&self.local)))
            },
            (StagePhase::StagingExists, Event::Answer(false)) => {
                self.phase = StagePhase::Copy;
                StageNext::Perform(
                    Action::CopyTree { from: quantframe_path(&self.local), to: pending_import_path(&self.local) },
                )
            },
            (StagePhase::ClearStaging, Event::Finished(Ok(()))) => {
                self.phase = StagePhase::Copy;
                StageNext::Perform(
                    Action::CopyTree { from: quantframe_path(&self.local), to: pending_import_path(&self.local) },
                )
            },
            (StagePhase::ClearStaging, Event::Finished(Err(d))) => {
                self.phase = StagePhase::Done;
                let action = owned("clearing a previous pending import");
                StageNext::Done(Err(SaveError::Io { path: pending_import_path(&self.local), action, detail: d }))
            },
            (StagePhase::Copy, Event::SubtaskFinished(Ok(()))) => {
                self.phase = StagePhase::RenameDb;
                StageNext::Perform(Action::RenameDbFiles(pending_import_path(&self.local)))
            },
            (StagePhase::Copy, Event::SubtaskFinished(Err(err))) => {
                self.phase = StagePhase::Done;
                StageNext::Done(Err(err))
            },
            (StagePhase::RenameDb, Event::SubtaskFinished(Ok(()))) => {
                self.phase = StagePhase::WriteFlag;
                let contents = owned(PENDING_FLAG_CONTENTS);
                StageNext::Perform(Action::WriteFile { path: pending_flag_path(&self.local), contents })
            },
            (StagePhase::RenameDb, Event::SubtaskFinished(Err(err))) => {
                self.phase = StagePhase::Done;
                StageNext::Done(Err(err))
            },
            (StagePhase::WriteFlag, Event::Finished(Ok(()))) => {
                self.phase = StagePhase::Done;
                StageNext::Done(Ok(pending_import_path(&self.local)))
            },
            (StagePhase::WriteFlag, Event::Finished(Err(d))) => {
                self.phase = StagePhase::Done;
                let action = owned("writing import flag");
                StageNext::Done(Err(SaveError::Io { path: pending_flag_path(&self.local), action, detail: d }))
            },
            _ => {
                assert(false);
                StageNext::Done(Err(SaveError::StagedSaveMissing))
            },
        }
    }
}


// ---------------------------------------------------------------------------
// Applying a staged import
// ---------------------------------------------------------------------------

/// The view of an optional path.
pub open spec fn opt_path_view(p: Option<DataPath>) -> Option<DataPathView> {
    match p {
        Some(q) => Some(q@),
        None => None,
    }
}

/// Where applying a staged import stands: which answer it waits for.
pub enum ApplyPhase {
    /// Waits for whether the pending flag exists.
    FlagExists,
    /// Waits for whether the staging folder exists.
    StagingExists,
    /// The staged copy is gone: waits for the flag to be removed, then fails.
    DropFlagThenFail,
    /// Waits for whether the Kuantframe folder exists.
    DestExists,
    /// Waits for whether the backup folder `candidate` already exists; `next`
    /// is the number the following candidate gets.
    BackupNameFree { stamp: String, candidate: DataPath, next: u32 },
    /// Waits for the Kuantframe folder to be moved to `backup`.
    MoveToBackup { backup: DataPath },
    /// Waits for the staging folder to be moved into place; `made` is the
    /// backup folder, when one was made.
    Swap { made: Option<DataPath> },
    /// The swap failed: waits for whether the Kuantframe folder exists.
    RestoreProbe { backup: DataPath, detail: String },
    /// The swap failed: waits for the Kuantframe folder to be removed.
    RestoreClear { backup: DataPath, detail: String },
    /// The swap failed: waits for the backup to be moved back.
    RestoreMove { detail: String },
    /// The swap succeeded: waits for the flag to be removed; `made` is the
    /// backup folder, when one was made.
    DropFlagThenSucceed { made: Option<DataPath> },
    /// Finished.
    Done,
}

/// What an [`ApplyPhase`] holds.
pub enum ApplyPhaseView {
    FlagExists,
    StagingExists,
    DropFlagThenFail,
    DestExists,
    BackupNameFree { stamp: Seq<char>, candidate: DataPathView, next: u32 },
    MoveToBackup { backup: DataPathView },
    Swap { made: Option<DataPathView> },
    RestoreProbe { backup: DataPathView, detail: Seq<char> },
    RestoreClear { backup: DataPathView, detail: Seq<char> },
    RestoreMove { detail: Seq<char> },
    DropFlagThenSucceed { made: Option<DataPathView> },
    Done,
}

impl View for ApplyPhase {
    type V = ApplyPhaseView;

    open spec fn view(&self) -> ApplyPhaseView {
        match self {
            ApplyPhase::FlagExists => ApplyPhaseView::FlagExists,
            ApplyPhase::StagingExists => ApplyPhaseView::StagingExists,
            ApplyPhase::DropFlagThenFail => ApplyPhaseView::DropFlagThenFail,
            ApplyPhase::DestExists => ApplyPhaseView::DestExists,
            ApplyPhase::BackupNameFree { stamp, candidate, next } => ApplyPhaseView::BackupNameFree {
                stamp: stamp@,
                candidate: candidate@,
                next: *next,
            },
            ApplyPhase::MoveToBackup { backup } => ApplyPhaseView::MoveToBackup { backup: backup@ },
            ApplyPhase::Swap { made } => ApplyPhaseView::Swap { made: opt_path_view(*made) },
            ApplyPhase::RestoreProbe { backup, detail } => ApplyPhaseView::RestoreProbe {
                backup: backup@,
                detail: detail@,
            },
            ApplyPhase::RestoreClear { backup, detail } => ApplyPhaseView::RestoreClear {
                backup: backup@,
                detail: detail@,
            },
            ApplyPhase::RestoreMove { detail } => ApplyPhaseView::RestoreMove { detail: detail@ },
            ApplyPhase::DropFlagThenSucceed { made } => ApplyPhaseView::DropFlagThenSucceed {
                made: opt_path_view(*made),
            },
            ApplyPhase::Done => ApplyPhaseView::Done,
        }
    }
}

/// What applying does next.
#[derive(Debug)]
pub enum ApplyNext {
    /// Perform the action and report its outcome.
    Perform(Action),
    /// Applying is over: the backup folder when Kuantframe data was replaced
    /// (`None` when there was none, or when nothing was pending), or why it
    /// failed.
    Done(Result<Option<DataPath>, SaveError>),
}

/// What an [`ApplyNext`] holds.
pub enum ApplyNextView {
    Perform(ActionView),
    Done(Result<Option<DataPathView>, SaveErrorView>),
}

impl View for ApplyNext {
    type V = ApplyNextView;

    open spec fn view(&self) -> ApplyNextView {
        match self {
            ApplyNext::Perform(a) => ApplyNextView::Perform(a@),
            ApplyNext::Done(r) => ApplyNextView::Done(
                match r {
                    Ok(p) => Ok(opt_path_view(*p)),
                    Err(e) => Err(e@),
                },
            ),
        }
    }
}

/// Applies a staged Quantframe import before the database and logger open: when
/// the flag is set, moves the current Kuantframe data to a fresh backup folder,
/// moves the staged copy into its place and clears the flag.
pub struct ApplyImport {
    local: DataPath,
    phase: ApplyPhase,
    clock: Option<ClockReading>,
}

/// What an [`ApplyImport`] holds.
pub struct ApplyImportView {
    pub local: DataPathView,
    pub phase: ApplyPhaseView,
}

impl View for ApplyImport {
    type V = ApplyImportView;

    closed spec fn view(&self) -> ApplyImportView {
        ApplyImportView { local: self.local@, phase: self.phase@ }
    }
}

/// The event kinds applying accepts in each phase.
pub open spec fn apply_expects(phase: ApplyPhaseView, e: EventView) -> bool {
    match phase {
        ApplyPhaseView::FlagExists | ApplyPhaseView::StagingExists | ApplyPhaseView::DestExists
        | ApplyPhaseView::BackupNameFree { .. } | ApplyPhaseView::RestoreProbe { .. } => e is Answer,
        ApplyPhaseView::Done => false,
        _ => e is Finished,
    }
}

/// The first action of applying.
pub open spec fn apply_start(local: DataPathView) -> (ApplyImportView, ApplyNextView) {
    (
        ApplyImportView { local, phase: ApplyPhaseView::FlagExists },
        ApplyNextView::Perform(ActionView::Probe(flag_of(local))),
    )
}

/// The backup counter after `n`: one more, wrapping to 0 after the largest value.
pub open spec fn next_counter(n: u32) -> u32 {
    if n == u32::MAX {
        0
    } else {
        (n + 1) as u32
    }
}

/// One step of applying. `stamp` is the local time read when the Kuantframe
/// folder is found to exist; no other step reads it.
pub open spec fn apply_step(s: ApplyImportView, e: EventView, stamp: Seq<char>) -> (ApplyImportView, ApplyNextView) {
    let local = s.local;
    let go = |phase: ApplyPhaseView, a: ActionView| (ApplyImportView { local, phase }, ApplyNextView::Perform(a));
    let end = |r: Result<Option<DataPathView>, SaveErrorView>|
        (ApplyImportView { local, phase: ApplyPhaseView::Done }, ApplyNextView::Done(r));
    match (s.phase, e) {
        (ApplyPhaseView::FlagExists, EventView::Answer(false)) => end(Ok(None)),
        (ApplyPhaseView::FlagExists, EventView::Answer(true)) => go(
            ApplyPhaseView::StagingExists,
            ActionView::Probe(staging_of(local)),
        ),
        (ApplyPhaseView::StagingExists, EventView::Answer(false)) => go(
            ApplyPhaseView::DropFlagThenFail,
            ActionView::RemoveFile(flag_of(local)),
        ),
        (ApplyPhaseView::StagingExists, EventView::Answer(true)) => go(
            ApplyPhaseView::DestExists,
            ActionView::Probe(dest_of(local)),
        ),
        (ApplyPhaseView::DropFlagThenFail, EventView::Finished(_)) => end(Err(SaveErrorView::StagedSaveMissing)),
        (ApplyPhaseView::DestExists, EventView::Answer(false)) => go(
            ApplyPhaseView::Swap { made: None },
            ActionView::Rename { from: staging_of(local), to: dest_of(local) },
        ),
        (ApplyPhaseView::DestExists, EventView::Answer(true)) => {
            let candidate = local.join(backup_name(stamp, false, 0));
            go(
                ApplyPhaseView::BackupNameFree { stamp, candidate, next: 1 },
                ActionView::Probe(candidate),
            )
        },
        (ApplyPhaseView::BackupNameFree { stamp: st, candidate, next }, EventView::Answer(true)) => {
            let c = local.join(backup_name(st, true, next as nat));
            go(
                ApplyPhaseView::BackupNameFree { stamp: st, candidate: c, next: next_counter(next) },
                ActionView::Probe(c),
            )
        },
        (ApplyPhaseView::BackupNameFree { stamp: st, candidate, next }, EventView::Answer(false)) => go(
            ApplyPhaseView::MoveToBackup { backup: candidate },
            ActionView::Rename { from: dest_of(local), to: candidate },
        ),
        (ApplyPhaseView::MoveToBackup { backup }, EventView::Finished(Ok(()))) => go(
            ApplyPhaseView::Swap { made: Some(backup) },
            ActionView::Rename { from: staging_of(local), to: dest_of(local) },
        ),
        (ApplyPhaseView::MoveToBackup { backup }, EventView::Finished(Err(d))) => end(
            Err(SaveErrorView::BackupFailed { dest: dest_of(local), detail: d }),
        ),
        (ApplyPhaseView::Swap { made }, EventView::Finished(Ok(()))) => go(
            ApplyPhaseView::DropFlagThenSucceed { made },
            ActionView::RemoveFile(flag_of(local)),
        ),
        (ApplyPhaseView::Swap { made: None }, EventView::Finished(Err(d))) => end(
            Err(SaveErrorView::ReplaceFailed { detail: d }),
        ),
        (ApplyPhaseView::Swap { made: Some(b) }, EventView::Finished(Err(d))) => go(
            ApplyPhaseView::RestoreProbe { backup: b, detail: d },
            ActionView::Probe(dest_of(local)),
        ),
        (ApplyPhaseView::RestoreProbe { backup, detail }, EventView::Answer(true)) => go(
            ApplyPhaseView::RestoreClear { backup, detail },
            ActionView::RemoveDirAll(dest_of(local)),
        ),
        (ApplyPhaseView::RestoreProbe { backup, detail }, EventView::Answer(false)) => go(
            ApplyPhaseView::RestoreMove { detail },
            ActionView::Rename { from: backup, to: dest_of(local) },
        ),
        (ApplyPhaseView::RestoreClear { backup, detail }, EventView::Finished(_)) => go(
            ApplyPhaseView::RestoreMove { detail },
            ActionView::Rename { from: backup, to: dest_of(local) },
        ),
        (ApplyPhaseView::RestoreMove { detail }, EventView::Finished(_)) => end(
            Err(SaveErrorView::ReplaceFailed { detail }),
        ),
        (ApplyPhaseView::DropFlagThenSucceed { made }, EventView::Finished(_)) => end(Ok(made)),
        _ => (s, ApplyNextView::Done(Err(SaveErrorView::StagedSaveMissing))),
    }
}

/// A timestamp of the right shape, for the steps that read no clock.
pub open spec fn sample_stamp() -> Seq<char> {
    seq!['1', '9', '7', '0', '0', '1', '0', '1', '-', '0', '0', '0', '0', '0', '0']
}

/// The step of `phase` on `e` reads the clock.
pub open spec fn reads_clock(phase: ApplyPhaseView, e: EventView) -> bool {
    phase is DestExists && e == EventView::Answer(true)
}

impl ApplyImport {
    /// Starts applying a staged import in the local data folder `local_data`;
    /// the first action asks whether the pending flag exists.
    pub fn start(local_data: &DataPath) -> (r: (ApplyImport, ApplyNext))
        ensures
            (r.0@, r.1@) == apply_start(local_data@),
            r.0.clock_read() is None,
    {
        let m = ApplyImport { local: local_data.duplicate(), phase: ApplyPhase::FlagExists, clock: None };
        let a = Action::Probe(pending_flag_path(local_data));
        (m, ApplyNext::Perform(a))
    }

    /// The local time this applying read from the clock, once it has read it.
    pub closed spec fn clock_read(&self) -> Option<Seq<char>> {
        match self.clock {
            Some(c) => Some(c@),
            None => None,
        }
    }

    /// Whether applying has finished.
    pub fn is_done(&self) -> (r: bool)
        ensures
            r == (self@.phase is Done),
    {
        match self.phase {
            ApplyPhase::Done => true,
            _ => false,
        }
    }

    /// Whether `e` is the kind of report applying waits for now.
    pub fn accepts(&self, e: &Event) -> (r: bool)
        ensures
            r == apply_expects(self@.phase, e@),
    {
        match (&self.phase, e) {
            (ApplyPhase::Done, _) => false,
            (ApplyPhase::FlagExists, Event::Answer(_)) => true,
            (ApplyPhase::StagingExists, Event::Answer(_)) => true,
            (ApplyPhase::DestExists, Event::Answer(_)) => true,
            (ApplyPhase::BackupNameFree { .. }, Event::Answer(_)) => true,
            (ApplyPhase::RestoreProbe { .. }, Event::Answer(_)) => true,
            (ApplyPhase::FlagExists, _) => false,
            (ApplyPhase::StagingExists, _) => false,
            (ApplyPhase::DestExists, _) => false,
            (ApplyPhase::BackupNameFree { .. }, _) => false,
            (ApplyPhase::RestoreProbe { .. }, _) => false,
            (_, Event::Finished(_)) => true,
            _ => false,
        }
    }

    /// Takes the outcome of the last action and decides what comes next, with
    /// `stamp` as the local time when the Kuantframe folder is found to exist
    /// (no other step uses it).
    pub fn step_with_stamp(&mut self, e: Event, stamp: &str) -> (r: ApplyNext)
        requires
            apply_expects(old(self)@.phase, e@),
        ensures
            (final(self)@, r@) == apply_step(old(self)@, e@, stamp@),
            final(self).clock_read() == old(self).clock_read(),
    {
        let mut phase = ApplyPhase::Done;
        std::mem::swap(&mut phase, &mut self.phase);
        match (phase, e) {
            (ApplyPhase::FlagExists, Event::Answer(false)) => ApplyNext::Done(Ok(None)),
            (ApplyPhase::FlagExists, Event::Answer(true)) => {
                self.phase = ApplyPhase::StagingExists;
                ApplyNext::Perform(Action::Probe(pending_import_path(&self.local)))
            },
            (ApplyPhase::StagingExists, Event::Answer(false)) => {
                self.phase = ApplyPhase::DropFlagThenFail;
                ApplyNext::Perform(Action::RemoveFile(pending_flag_path(&self.local)))
            },
            (ApplyPhase::StagingExists, Event::Answer(true)) => {
                self.phase = ApplyPhase::DestExists;
                ApplyNext::Perform(Action::Probe(kuantframe_path(&self.local)))
            },
            (ApplyPhase::DropFlagThenFail, Event::Finished(_)) => ApplyNext::Done(Err(SaveError::StagedSaveMissing)),
            (ApplyPhase::DestExists, Event::Answer(false)) => {
                self.phase = ApplyPhase::Swap { made: None };
                ApplyNext::Perform(
                    Action::Rename { from: pending_import_path(&self.local), to: kuantframe_path(&self.local) },
                )
            },
            (ApplyPhase::DestExists, Event::Answer(true)) => {
                let candidate = backup_path(&self.local, stamp, false, 0);
                let probe = candidate.duplicate();
                self.phase = ApplyPhase::BackupNameFree { stamp: owned(stamp), candidate, next: 1 };
                ApplyNext::Perform(Action::Probe(probe))
            },
            (ApplyPhase::BackupNameFree { stamp, candidate, next }, Event::Answer(true)) => {
                let c = backup_path(&self.local, stamp.as_str(), true, next);
                let probe = c.duplicate();
                let following: u32 = if next == u32::MAX {
                    0
                } else {
                    next + 1
                };
                self.phase = ApplyPhase::BackupNameFree { stamp, candidate: c, next: following };
                ApplyNext::Perform(Action::Probe(probe))
            },
            (ApplyPhase::BackupNameFree { stamp, candidate, next }, Event::Answer(false)) => {
                let to = candidate.duplicate();
                self.phase = ApplyPhase::MoveToBackup { backup: candidate };
                ApplyNext::Perform(Action::Rename { from: kuantframe_path(&self.local), to })
            },
            (ApplyPhase::MoveToBackup { backup }, Event::Finished(Ok(()))) => {
                self.phase = ApplyPhase::Swap { made: Some(backup) };
                ApplyNext::Perform(
                    Action::Rename { from: pending_import_path(&self.local), to: kuantframe_path(&self.local) },
                )
            },
            (ApplyPhase::MoveToBackup { backup }, Event::Finished(Err(d))) => {
                ApplyNext::Done(Err(SaveError::BackupFailed { dest: kuantframe_path(&self.local), detail: d }))
            },
            (ApplyPhase::Swap { made }, Event::Finished(Ok(()))) => {
                self.phase = ApplyPhase::DropFlagThenSucceed { made };
                ApplyNext::Perform(Action::RemoveFile(pending_flag_path(&self.local)))
            },
            (ApplyPhase::Swap { made: None }, Event::Finished(Err(d))) => {
                ApplyNext::Done(Err(SaveError::ReplaceFailed { detail: d }))
            },
            (ApplyPhase::Swap { made: Some(b) }, Event::Finished(Err(d))) => {
                self.phase = ApplyPhase::RestoreProbe { backup: b, detail: d };
                ApplyNext::Perform(Action::Probe(kuantframe_path(&self.local)))
            },
            (ApplyPhase::RestoreProbe { backup, detail }, Event::Answer(true)) => {
                self.phase = ApplyPhase::RestoreClear { backup, detail };
                ApplyNext::Perform(Action::RemoveDirAll(kuantframe_path(&self.local)))
            },
            (ApplyPhase::RestoreProbe { backup, detail }, Event::Answer(false)) => {
                let from = backup.duplicate();
                self.phase = ApplyPhase::RestoreMove { detail };
                ApplyNext::Perform(Action::Rename { from, to: kuantframe_path(&self.local) })
            },
            (ApplyPhase::RestoreClear { backup, detail }, Event::Finished(_)) => {
                let from = backup.duplicate();
                self.phase = ApplyPhase::RestoreMove { detail };
                ApplyNext::Perform(Action::Rename { from, to: kuantframe_path(&self.local) })
            },
            (ApplyPhase::RestoreMove { detail }, Event::Finished(_)) => {
                ApplyNext::Done(Err(SaveError::ReplaceFailed { detail }))
            },
            (ApplyPhase::DropFlagThenSucceed { made }, Event::Finished(_)) => ApplyNext::Done(Ok(made)),
            _ => {
                assert(false);
                ApplyNext::Done(Err(SaveError::StagedSaveMissing))
            },
        }
    }

    /// Whether the next step, on `e`, reads the clock.
    pub fn reads_clock_on(&self, e: &Event) -> (r: bool)
        ensures
            r == reads_clock(self@.phase, e@),
    {
        match (&self.phase, e) {
            (ApplyPhase::DestExists, Event::Answer(true)) => true,
            _ => false,
        }
    }

    /// Takes the outcome of the last action and decides what comes next. When the
    /// Kuantframe folder is found to exist, the local time is read for the backup
    /// folder's name: the step is the one for that reading, which this applying
    /// keeps. Every other step reads no clock and keeps the reading as it was.
    pub fn step(&mut self, e: Event) -> (r: ApplyNext)
        requires
            apply_expects(old(self)@.phase, e@),
        ensures
            exists|stamp: Seq<char>| is_backup_stamp(stamp) && (final(self)@, r@) == apply_step(old(self)@, e@, stamp),
            reads_clock(old(self)@.phase, e@) ==> final(self).clock_read() is Some && is_backup_stamp(
                final(self).clock_read()->Some_0,
            ) && (final(self)@, r@) == apply_step(old(self)@, e@, final(self).clock_read()->Some_0),
            !reads_clock(old(self)@.phase, e@) ==> final(self).clock_read() == old(self).clock_read() && (
            final(self)@,
            r@,
            ) == apply_step(old(self)@, e@, sample_stamp()),
    {
        if self.reads_clock_on(&e) {
            let reading = backup_timestamp(BACKUP_STAMP_FORMAT);
            let r = self.step_with_stamp(e, reading.as_str());
            self.clock = Some(reading);
            r
        } else {
            let ghost before = self@;
            let ghost ev = e@;
            let r = self.step_with_stamp(e, "");
            proof {
                assert(is_backup_stamp(sample_stamp()));
                assert(apply_step(before, ev, ""@) == apply_step(before, ev, sample_stamp()));
            }
            r
        }
    }
}


// ---------------------------------------------------------------------------
// Laws
// ---------------------------------------------------------------------------

/// The texts of the folder and file names.
proof fn lemma_name_texts()
    ensures
        QUANTFRAME_APP_PATH@ == "dev.kenya.quantframe"@,
        KUANTFRAME_APP_PATH@ == "dev.kuantframe"@,
        PENDING_IMPORT_DIR@ == "dev.kuantframe.pending-import"@,
        PENDING_IMPORT_FLAG@ == "dev.kuantframe.pending-import.flag"@,
        BACKUP_DIR_PREFIX@ == "dev.kuantframe.backup-"@,
{
    assert(QUANTFRAME_APP_PATH == "dev.kenya.quantframe");
    assert(KUANTFRAME_APP_PATH == "dev.kuantframe");
    assert(PENDING_IMPORT_DIR == "dev.kuantframe.pending-import");
    assert(PENDING_IMPORT_FLAG == "dev.kuantframe.pending-import.flag");
    assert(BACKUP_DIR_PREFIX == "dev.kuantframe.backup-");
}

/// The folder and file names the transfer works with differ from one another.
pub(crate) proof fn lemma_names_differ()
    ensures
        QUANTFRAME_APP_PATH@ != PENDING_IMPORT_DIR@,
        QUANTFRAME_APP_PATH@ != PENDING_IMPORT_FLAG@,
        QUANTFRAME_APP_PATH@ != KUANTFRAME_APP_PATH@,
        KUANTFRAME_APP_PATH@ != PENDING_IMPORT_DIR@,
        KUANTFRAME_APP_PATH@ != PENDING_IMPORT_FLAG@,
        PENDING_IMPORT_DIR@ != PENDING_IMPORT_FLAG@,
{
    reveal_strlit("dev.kenya.quantframe");
    reveal_strlit("dev.kuantframe");
    reveal_strlit("dev.kuantframe.pending-import");
    reveal_strlit("dev.kuantframe.pending-import.flag");
    lemma_name_texts();
    assert(QUANTFRAME_APP_PATH@[5] != PENDING_IMPORT_DIR@[5]);
    assert(QUANTFRAME_APP_PATH@[5] != PENDING_IMPORT_FLAG@[5]);
    assert(QUANTFRAME_APP_PATH@.len() != KUANTFRAME_APP_PATH@.len());
    assert(KUANTFRAME_APP_PATH@.len() != PENDING_IMPORT_DIR@.len());
    assert(KUANTFRAME_APP_PATH@.len() != PENDING_IMPORT_FLAG@.len());
    assert(PENDING_IMPORT_DIR@.len() != PENDING_IMPORT_FLAG@.len());
}

/// Two paths one component below the same folder lie within one another only
/// when the component is the same.
proof fn lemma_siblings(local: DataPathView, a: Seq<char>, b: Seq<char>)
    requires
        a != b,
    ensures
        !local.join(a).is_within(local.join(b)),
{
    let n = local.parts.len() as int;
    if local.join(a).is_within(local.join(b)) {
        assert(local.join(a).parts.subrange(0, n + 1)[n] == local.join(b).parts[n]);
    }
}

/// Staging changes nothing until the Quantframe folder is known to hold a save:
/// while it asks whether the folder exists and whether it holds a save, every
/// action it issues only reads.
pub proof fn law_stage_changes_nothing_before_save_found(s: StageImportView, e: EventView)
    requires
        s.phase == StagePhase::SourceExists || s.phase == StagePhase::SaveCheck,
        stage_expects(s.phase, e),
    ensures
        match stage_step(s, e).1 {
            StageNextView::Perform(a) => action_targets(a).len() == 0,
            StageNextView::Done(r) => r is Err,
        },
{
}

/// Staging reports a missing Quantframe folder, and a folder without a save,
/// as errors naming that folder.
pub proof fn law_stage_missing_save_is_reported(local: DataPathView)
    ensures
        stage_start(local).1 == StageNextView::Perform(ActionView::Probe(source_of(local))),
        stage_step(stage_start(local).0, EventView::Answer(false)).1 == StageNextView::Done(
            Err(SaveErrorView::NoQuantframeSave { path: source_of(local) }),
        ),
        stage_step(
            StageImportView { local, phase: StagePhase::SaveCheck },
            EventView::Answer(false),
        ).1 == StageNextView::Done(Err(SaveErrorView::NoSaveData { path: source_of(local) })),
{
}

/// Staging leaves the Quantframe save and the live Kuantframe data intact: no
/// action it issues creates, changes or removes anything at or below the
/// Quantframe folder or the Kuantframe folder.
pub proof fn law_stage_leaves_source_intact(s: StageImportView, e: EventView)
    requires
        stage_expects(s.phase, e),
    ensures
        match stage_step(s, e).1 {
            StageNextView::Perform(a) => forall|i: int| 0 <= i < action_targets(a).len() ==> {
                &&& !(#[trigger] action_targets(a)[i]).is_within(source_of(s.local))
                &&& !action_targets(a)[i].is_within(dest_of(s.local))
            },
            StageNextView::Done(_) => true,
        },
{
    lemma_names_differ();
    lemma_siblings(s.local, PENDING_IMPORT_DIR@, QUANTFRAME_APP_PATH@);
    lemma_siblings(s.local, PENDING_IMPORT_FLAG@, QUANTFRAME_APP_PATH@);
    lemma_siblings(s.local, PENDING_IMPORT_DIR@, KUANTFRAME_APP_PATH@);
    lemma_siblings(s.local, PENDING_IMPORT_FLAG@, KUANTFRAME_APP_PATH@);
}

/// A failed action ends staging at once with an error and asks for nothing
/// more: a failed single operation gives an I/O error carrying the failure's
/// text, naming the staging folder when clearing an earlier staging folder
/// failed, and a failed copy or renaming gives that subtask's error.
pub proof fn law_stage_stops_on_failure(s: StageImportView, e: EventView)
    requires
        stage_expects(s.phase, e),
    ensures
        match e {
            EventView::Finished(Err(d)) => stage_step(s, e).0.phase == StagePhase::Done && match stage_step(s, e).1 {
                StageNextView::Done(Err(SaveErrorView::Io { path, action, detail })) => detail == d && (s.phase
                    == StagePhase::ClearStaging ==> path == staging_of(s.local)),
                _ => false,
            },
            EventView::SubtaskFinished(Err(err)) => stage_step(s, e).0.phase == StagePhase::Done && stage_step(
                s,
                e,
            ).1 == StageNextView::Done(Err(err)),
            _ => true,
        },
{
}

/// The clock reading decides the backup folder: when the Kuantframe folder is
/// found to exist, the first backup folder tried is the local data folder's
/// entry named by the prefix and the reading, so two different readings give
/// two different folders.
pub proof fn law_backup_named_after_reading(s: ApplyImportView, t1: Seq<char>, t2: Seq<char>)
    requires
        s.phase is DestExists,
    ensures
        apply_step(s, EventView::Answer(true), t1).1 == ApplyNextView::Perform(
            ActionView::Probe(s.local.join(BACKUP_DIR_PREFIX@ + t1)),
        ),
        t1 != t2 ==> apply_step(s, EventView::Answer(true), t1).1 != apply_step(s, EventView::Answer(true), t2).1,
{
    let n1 = BACKUP_DIR_PREFIX@ + t1;
    let n2 = BACKUP_DIR_PREFIX@ + t2;
    if t1 != t2 {
        if n1 == n2 {
            let k = BACKUP_DIR_PREFIX@.len() as int;
            assert(t1 =~= n1.subrange(k, n1.len() as int));
            assert(t2 =~= n2.subrange(k, n2.len() as int));
        }
        let p1 = s.local.join(n1);
        let p2 = s.local.join(n2);
        if p1 == p2 {
            assert(p1.parts.last() == n1);
            assert(p2.parts.last() == n2);
        }
    }
}

/// Staging succeeds only right after the flag was written, and then returns
/// the staging folder.
pub proof fn law_stage_success_returns_staging(s: StageImportView, e: EventView)
    requires
        stage_expects(s.phase, e),
        stage_step(s, e).1 is Done,
        stage_step(s, e).1->Done_0 is Ok,
    ensures
        s.phase == StagePhase::WriteFlag,
        e == EventView::Finished(Ok(())),
        stage_step(s, e).1->Done_0->Ok_0 == staging_of(s.local),
{
    if let EventView::Finished(Ok(u)) = e {
        assert(u == ());
    }
}

/// With no pending flag, applying does nothing and returns `Ok(None)`.
pub proof fn law_apply_nothing_pending(local: DataPathView, stamp: Seq<char>)
    ensures
        apply_start(local).1 == ApplyNextView::Perform(ActionView::Probe(flag_of(local))),
        apply_step(apply_start(local).0, EventView::Answer(false), stamp).1 == ApplyNextView::Done(Ok(None)),
{
}

/// When the flag is set but the staged copy is missing, applying removes the
/// flag, changes nothing else, and reports the missing staged save.
pub proof fn law_apply_missing_staging(local: DataPathView, stamp: Seq<char>, removed: Result<(), Seq<char>>)
    ensures
        ({
            let s = ApplyImportView { local, phase: ApplyPhaseView::StagingExists };
            let (s1, n1) = apply_step(s, EventView::Answer(false), stamp);
            &&& n1 == ApplyNextView::Perform(ActionView::RemoveFile(flag_of(local)))
            &&& apply_step(s1, EventView::Finished(removed), stamp).1 == ApplyNextView::Done(
                Err(SaveErrorView::StagedSaveMissing),
            )
        }),
{
}

/// `p` is a backup folder in `local`: the backup prefix followed by a stamp,
/// unnumbered or with a number.
pub open spec fn is_backup_folder(p: DataPathView, local: DataPathView) -> bool {
    exists|stamp: Seq<char>, numbered: bool, n: nat|
        is_backup_stamp(stamp) && p == local.join(#[trigger] backup_name(stamp, numbered, n))
}

/// Every folder that applying holds as a backup is a backup folder.
pub open spec fn apply_inv(s: ApplyImportView) -> bool {
    match s.phase {
        ApplyPhaseView::BackupNameFree { stamp, candidate, next } => is_backup_stamp(stamp)
            && is_backup_folder(candidate, s.local),
        ApplyPhaseView::MoveToBackup { backup } => is_backup_folder(backup, s.local),
        ApplyPhaseView::Swap { made: Some(b) } => is_backup_folder(b, s.local),
        ApplyPhaseView::RestoreProbe { backup, detail } => is_backup_folder(backup, s.local),
        ApplyPhaseView::RestoreClear { backup, detail } => is_backup_folder(backup, s.local),
        ApplyPhaseView::DropFlagThenSucceed { made: Some(b) } => is_backup_folder(b, s.local),
        _ => true,
    }
}

/// The backup prefix makes a backup folder differ from the Kuantframe folder,
/// the staging folder, the flag and the Quantframe folder.
pub proof fn law_backup_is_apart(local: DataPathView, stamp: Seq<char>, numbered: bool, n: nat)
    ensures
        ({
            let b = local.join(backup_name(stamp, numbered, n));
            &&& b != dest_of(local)
            &&& b != staging_of(local)
            &&& b != flag_of(local)
            &&& b != source_of(local)
        }),
{
    reveal_strlit("dev.kenya.quantframe");
    reveal_strlit("dev.kuantframe");
    reveal_strlit("dev.kuantframe.pending-import");
    reveal_strlit("dev.kuantframe.pending-import.flag");
    reveal_strlit("dev.kuantframe.backup-");
    lemma_name_texts();
    let name = backup_name(stamp, numbered, n);
    assert(name[15] == 'b');
    let b = local.join(name);
    let k = local.parts.len() as int;
    if b == dest_of(local) {
        assert(b.parts[k] == name);
        assert(name.len() == KUANTFRAME_APP_PATH@.len());
    }
    if b == staging_of(local) {
        assert(b.parts[k] == name);
        assert(PENDING_IMPORT_DIR@[15] == 'p');
    }
    if b == flag_of(local) {
        assert(b.parts[k] == name);
        assert(PENDING_IMPORT_FLAG@[15] == 'p');
    }
    if b == source_of(local) {
        assert(b.parts[k] == name);
        assert(QUANTFRAME_APP_PATH@[5] == 'e');
    }
}

/// Every step keeps the backup folder a backup folder.
pub proof fn law_apply_inv_kept(s: ApplyImportView, e: EventView, stamp: Seq<char>)
    requires
        apply_inv(s),
        apply_expects(s.phase, e),
        is_backup_stamp(stamp),
    ensures
        apply_inv(apply_step(s, e, stamp).0),
{
    match (s.phase, e) {
        (ApplyPhaseView::DestExists, EventView::Answer(true)) => {
            let name = backup_name(stamp, false, 0);
            assert(is_backup_folder(s.local.join(name), s.local));
        },
        (ApplyPhaseView::BackupNameFree { stamp: st, candidate, next }, EventView::Answer(true)) => {
            let name = backup_name(st, true, next as nat);
            assert(is_backup_folder(s.local.join(name), s.local));
        },
        _ => {},
    }
}

/// Applying moves the live Kuantframe folder only to a backup folder that was
/// just reported not to exist, and the successful result names that folder
/// only after the flag was removed.
pub proof fn law_apply_moves_live_data_only_to_free_backup(s: ApplyImportView, e: EventView, stamp: Seq<char>)
    requires
        apply_inv(s),
        apply_expects(s.phase, e),
    ensures
        match apply_step(s, e, stamp).1 {
            ApplyNextView::Perform(ActionView::Rename { from, to }) => from == dest_of(s.local) ==> {
                &&& e == EventView::Answer(false)
                &&& s.phase matches ApplyPhaseView::BackupNameFree { candidate, .. } && candidate == to
                &&& is_backup_folder(to, s.local)
            },
            ApplyNextView::Done(Ok(Some(b))) => {
                &&& s.phase == ApplyPhaseView::DropFlagThenSucceed { made: Some(b) }
                &&& is_backup_folder(b, s.local)
            },
            _ => true,
        },
{
    lemma_names_differ();
    match s.phase {
        ApplyPhaseView::RestoreProbe { backup, detail } => {
            let (st, nb, n) = choose|st: Seq<char>, nb: bool, n: nat|
                is_backup_stamp(st) && backup == s.local.join(#[trigger] backup_name(st, nb, n));
            law_backup_is_apart(s.local, st, nb, n);
        },
        ApplyPhaseView::RestoreClear { backup, detail } => {
            let (st, nb, n) = choose|st: Seq<char>, nb: bool, n: nat|
                is_backup_stamp(st) && backup == s.local.join(#[trigger] backup_name(st, nb, n));
            law_backup_is_apart(s.local, st, nb, n);
        },
        ApplyPhaseView::Swap { .. } | ApplyPhaseView::MoveToBackup { .. } | ApplyPhaseView::DestExists => {
            let k = s.local.parts.len() as int;
            if staging_of(s.local) == dest_of(s.local) {
                assert(staging_of(s.local).parts[k] == dest_of(s.local).parts[k]);
            }
        },
        _ => {},
    }
}

/// When moving the staged copy into place fails after a backup was made, the
/// Kuantframe folder is cleared if present, the backup is moved back, and the
/// failure is reported.
pub proof fn law_apply_restores_backup(
    local: DataPathView,
    backup: DataPathView,
    detail: Seq<char>,
    present: bool,
    cleared: Result<(), Seq<char>>,
    moved: Result<(), Seq<char>>,
    stamp: Seq<char>,
)
    ensures
        ({
            let s = ApplyImportView { local, phase: ApplyPhaseView::Swap { made: Some(backup) } };
            let (s1, n1) = apply_step(s, EventView::Finished(Err(detail)), stamp);
            let (s2, n2) = apply_step(s1, EventView::Answer(present), stamp);
            let restore = ActionView::Rename { from: backup, to: dest_of(local) };
            &&& n1 == ApplyNextView::Perform(ActionView::Probe(dest_of(local)))
            &&& if present {
                let (s3, n3) = apply_step(s2, EventView::Finished(cleared), stamp);
                &&& n2 == ApplyNextView::Perform(ActionView::RemoveDirAll(dest_of(local)))
                &&& n3 == ApplyNextView::Perform(restore)
                &&& apply_step(s3, EventView::Finished(moved), stamp).1 == ApplyNextView::Done(
                    Err(SaveErrorView::ReplaceFailed { detail }),
                )
            } else {
                &&& n2 == ApplyNextView::Perform(restore)
                &&& apply_step(s2, EventView::Finished(moved), stamp).1 == ApplyNextView::Done(
                    Err(SaveErrorView::ReplaceFailed { detail }),
                )
            }
        }),
{
}


/// Applying never touches the Quantframe save: no action it issues creates,
/// changes or removes anything at or below the Quantframe folder.
pub proof fn law_apply_leaves_source_intact(s: ApplyImportView, e: EventView, stamp: Seq<char>)
    requires
        apply_inv(s),
        apply_expects(s.phase, e),
        is_backup_stamp(stamp),
    ensures
        match apply_step(s, e, stamp).1 {
            ApplyNextView::Perform(a) => forall|i: int| 0 <= i < action_targets(a).len()
                ==> !(#[trigger] action_targets(a)[i]).is_within(source_of(s.local)),
            ApplyNextView::Done(_) => true,
        },
{
    lemma_names_differ();
    lemma_name_texts();
    reveal_strlit("dev.kenya.quantframe");
    reveal_strlit("dev.kuantframe.backup-");
    lemma_siblings(s.local, PENDING_IMPORT_DIR@, QUANTFRAME_APP_PATH@);
    lemma_siblings(s.local, PENDING_IMPORT_FLAG@, QUANTFRAME_APP_PATH@);
    lemma_siblings(s.local, KUANTFRAME_APP_PATH@, QUANTFRAME_APP_PATH@);
    law_apply_inv_kept(s, e, stamp);
    let t = apply_step(s, e, stamp).0;
    let b = match t.phase {
        ApplyPhaseView::BackupNameFree { candidate, .. } => Some(candidate),
        ApplyPhaseView::MoveToBackup { backup } => Some(backup),
        ApplyPhaseView::RestoreProbe { backup, .. } => Some(backup),
        ApplyPhaseView::RestoreClear { backup, .. } => Some(backup),
        _ => None,
    };
    let b0 = match s.phase {
        ApplyPhaseView::RestoreProbe { backup, .. } => Some(backup),
        ApplyPhaseView::RestoreClear { backup, .. } => Some(backup),
        ApplyPhaseView::BackupNameFree { candidate, .. } => Some(candidate),
        _ => None,
    };
    if let Some(p) = b {
        let (st, nb, n) = choose|st: Seq<char>, nb: bool, n: nat|
            is_backup_stamp(st) && p == s.local.join(#[trigger] backup_name(st, nb, n));
        assert(backup_name(st, nb, n)[5] == 'u');
        lemma_siblings(s.local, backup_name(st, nb, n), QUANTFRAME_APP_PATH@);
    }
    if let Some(p) = b0 {
        let (st, nb, n) = choose|st: Seq<char>, nb: bool, n: nat|
            is_backup_stamp(st) && p == s.local.join(#[trigger] backup_name(st, nb, n));
        assert(backup_name(st, nb, n)[5] == 'u');
        lemma_siblings(s.local, backup_name(st, nb, n), QUANTFRAME_APP_PATH@);
    }
}


/// A staged import is applied at most once. Every run starts by asking
/// whether the flag exists, and without it ends at once with `Ok(None)` having
/// changed nothing. A run ends with success, or with the missing-staging error,
/// only from the phases entered by removing the flag, and the step entering
/// them issues that removal. So once such a run's flag removal succeeded, the
/// next run finds no flag.
pub proof fn law_apply_at_most_once(s: ApplyImportView, e: EventView, stamp: Seq<char>)
    requires
        apply_expects(s.phase, e),
    ensures
        apply_start(s.local).1 == ApplyNextView::Perform(ActionView::Probe(flag_of(s.local))),
        apply_step(apply_start(s.local).0, EventView::Answer(false), stamp).1 == ApplyNextView::Done(Ok(None)),
        match apply_step(s, e, stamp).1 {
            ApplyNextView::Done(Ok(r)) => {
                ||| s.phase is FlagExists && r is None
                ||| s.phase is DropFlagThenSucceed
            },
            ApplyNextView::Done(Err(SaveErrorView::StagedSaveMissing)) => s.phase is DropFlagThenFail,
            ApplyNextView::Done(Err(_)) => true,
            ApplyNextView::Perform(a) => {
                let t = apply_step(s, e, stamp).0;
                (t.phase is DropFlagThenSucceed || t.phase is DropFlagThenFail)
                    ==> a == ActionView::RemoveFile(flag_of(s.local))
            },
        },
{
}

} // verus!
