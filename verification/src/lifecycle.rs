//! The life of a download task: which engine takes it, when it is started,
//! queued, paused, resumed, refreshed and deleted, and what a new engine
//! state sets off. The database and the engines are reached by the caller;
//! these functions decide what to ask of them.
use crate::models::{
    contains_source_type, DownloadFileConflict, DownloadStatus, EngineKind, EngineSummary, FileConflictAction,
    SourceType,
};
use crate::text::{chars_of, extend_vec, seq_eq, string_of, trim, trim_str};
use vstd::prelude::*;

verus! {

/// Why the task service refuses a request.
#[derive(Debug, PartialEq, Eq)]
pub enum ServiceError {
    /// The engine settings with this id are disabled.
    Disabled(String),
    /// The engine settings with this id do not take this source type.
    Unsupported(String, SourceType),
    /// The engine settings with this id belong to another engine.
    EngineMismatch(String, EngineKind),
    /// No enabled settings of this engine take this source type.
    NoEngine(EngineKind, SourceType),
    /// Tasks of this source type have no torrent files.
    NoTorrentFiles(SourceType),
    /// Tasks of this source type have no file selection.
    NoFileSelection(SourceType),
    EmptySelection,
    SelectionFromOne,
    NonPositiveDays,
    NonPositiveConcurrency,
    NoLocalFile,
    NoLocalDirectory,
}

pub open spec fn spec_service_message(e: ServiceError) -> Seq<char> {
    match e {
        ServiceError::Disabled(id) => id@ + " is disabled"@,
        ServiceError::Unsupported(id, t) => id@ + " does not support "@ + t.db_name() + " tasks"@,
        ServiceError::EngineMismatch(id, k) => "engine settings "@ + id@ + " does not match "@
            + k.db_name(),
        ServiceError::NoEngine(k, t) => "no enabled "@ + k.db_name() + " settings supports "@
            + t.db_name() + " tasks"@,
        ServiceError::NoTorrentFiles(t) => t.db_name() + " does not have torrent files"@,
        ServiceError::NoFileSelection(t) => t.db_name() + " does not support file selection"@,
        ServiceError::EmptySelection => "selected file indexes cannot be empty"@,
        ServiceError::SelectionFromOne => "selected file indexes must start from 1"@,
        ServiceError::NonPositiveDays => "older_than_days must be greater than 0"@,
        ServiceError::NonPositiveConcurrency => "local download concurrency must be greater than 0"@,
        ServiceError::NoLocalFile => "download task does not use a local download file managed by UniDL"@,
        ServiceError::NoLocalDirectory => "download task does not use a local download directory managed by UniDL"@,
    }
}

fn join2(a: &str, b: &str) -> (r: String)
    ensures
        r@ == a@ + b@,
{
    let mut v = chars_of(a);
    extend_vec(&mut v, &chars_of(b));
    string_of(&v)
}

fn join3(a: &str, b: &str, c: &str) -> (r: String)
    ensures
        r@ == a@ + b@ + c@,
{
    let mut v = chars_of(a);
    extend_vec(&mut v, &chars_of(b));
    extend_vec(&mut v, &chars_of(c));
    string_of(&v)
}

fn join4(a: &str, b: &str, c: &str, d: &str) -> (r: String)
    ensures
        r@ == a@ + b@ + c@ + d@,
{
    let mut v = chars_of(a);
    extend_vec(&mut v, &chars_of(b));
    extend_vec(&mut v, &chars_of(c));
    extend_vec(&mut v, &chars_of(d));
    string_of(&v)
}

impl ServiceError {
    pub fn message(&self) -> (r: String)
        ensures
            r@ == spec_service_message(*self),
    {
        match self {
            ServiceError::Disabled(id) => join2(id.as_str(), " is disabled"),
            ServiceError::Unsupported(id, t) => join4(
                id.as_str(),
                " does not support ",
                t.as_db(),
                " tasks",
            ),
            ServiceError::EngineMismatch(id, k) => join4(
                "engine settings ",
                id.as_str(),
                " does not match ",
                k.as_db(),
            ),
            ServiceError::NoEngine(k, t) => {
                let head = join3("no enabled ", k.as_db(), " settings supports ");
                join3(head.as_str(), t.as_db(), " tasks")
            },
            ServiceError::NoTorrentFiles(t) => join2(t.as_db(), " does not have torrent files"),
            ServiceError::NoFileSelection(t) => join2(t.as_db(), " does not support file selection"),
            ServiceError::EmptySelection => string_of(&chars_of("selected file indexes cannot be empty")),
            ServiceError::SelectionFromOne => string_of(&chars_of("selected file indexes must start from 1")),
            ServiceError::NonPositiveDays => string_of(&chars_of("older_than_days must be greater than 0")),
            ServiceError::NonPositiveConcurrency => string_of(
                &chars_of("local download concurrency must be greater than 0"),
            ),
            ServiceError::NoLocalFile => string_of(
                &chars_of("download task does not use a local download file managed by UniDL"),
            ),
            ServiceError::NoLocalDirectory => string_of(
                &chars_of("download task does not use a local download directory managed by UniDL"),
            ),
        }
    }
}

fn copy_string(s: &String) -> (r: String)
    ensures
        r@ == s@,
{
    string_of(&chars_of(s.as_str()))
}

// ---------------------------------------------------------------------
// Picking the engine
// ---------------------------------------------------------------------
/// Settings take a task where they are enabled and list its source type.
pub open spec fn spec_accepts(settings: EngineSummary, source_type: SourceType) -> Result<(), ServiceError> {
    if !settings.enabled {
        Err(ServiceError::Disabled(settings.id))
    } else if !settings.supported_source_types@.contains(source_type) {
        Err(ServiceError::Unsupported(settings.id, source_type))
    } else {
        Ok(())
    }
}

pub open spec fn same_error(a: ServiceError, b: ServiceError) -> bool {
    spec_service_message(a) == spec_service_message(b) && match (a, b) {
        (ServiceError::Disabled(x), ServiceError::Disabled(y)) => x@ == y@,
        (ServiceError::Unsupported(x, s), ServiceError::Unsupported(y, t)) => x@ == y@ && s == t,
        (ServiceError::EngineMismatch(x, k), ServiceError::EngineMismatch(y, l)) => x@ == y@ && k == l,
        _ => a == b,
    }
}

pub fn check_engine_accepts(settings: &EngineSummary, source_type: SourceType) -> (r: Result<(), ServiceError>)
    ensures
        match (r, spec_accepts(*settings, source_type)) {
            (Ok(()), Ok(())) => true,
            (Err(e), Err(f)) => same_error(e, f),
            _ => false,
        },
{
    if !settings.enabled {
        return Err(ServiceError::Disabled(copy_string(&settings.id)));
    }
    if !contains_source_type(settings.supported_source_types.as_slice(), source_type) {
        return Err(ServiceError::Unsupported(copy_string(&settings.id), source_type));
    }
    Ok(())
}

/// Settings chosen by id must belong to the engine that the task names.
pub fn check_selected_engine(settings: &EngineSummary, engine: EngineKind) -> (r: Result<(), ServiceError>)
    ensures
        settings.engine == engine ==> r is Ok,
        settings.engine != engine ==> (r matches Err(ServiceError::EngineMismatch(id, k)) && id@
            == settings.id@ && k == engine),
{
    if settings.engine != engine {
        return Err(ServiceError::EngineMismatch(copy_string(&settings.id), engine));
    }
    Ok(())
}

/// Settings that may take a task of this engine and source type unasked.
pub open spec fn offers(s: EngineSummary, engine: EngineKind, source_type: SourceType) -> bool {
    s.engine == engine && s.enabled && s.supported_source_types@.contains(source_type)
}

/// The first settings that offer to take a task of this engine and source
/// type, where none was chosen.
pub fn find_engine_for(
    all: &[EngineSummary],
    engine: EngineKind,
    source_type: SourceType,
) -> (r: Result<usize, ServiceError>)
    ensures
        match r {
            Ok(i) => i < all@.len() && offers(all@[i as int], engine, source_type) && forall|j: int|
                0 <= j < i ==> !offers(#[trigger] all@[j], engine, source_type),
            Err(e) => e == ServiceError::NoEngine(engine, source_type) && forall|j: int|
                0 <= j < all@.len() ==> !offers(#[trigger] all@[j], engine, source_type),
        },
{
    let mut i: usize = 0;
    while i < all.len()
        invariant
            i <= all@.len(),
            forall|j: int| 0 <= j < i ==> !offers(#[trigger] all@[j], engine, source_type),
        decreases all.len() - i,
    {
        let s = &all[i];
        if s.engine == engine && s.enabled && contains_source_type(
            s.supported_source_types.as_slice(),
            source_type,
        ) {
            return Ok(i);
        }
        i = i + 1;
    }
    Err(ServiceError::NoEngine(engine, source_type))
}

// ---------------------------------------------------------------------
// Local downloads and the queue
// ---------------------------------------------------------------------
/// The engines whose downloads run on this machine and share its slots.
pub open spec fn spec_is_local(engine: EngineKind) -> bool {
    engine == EngineKind::Aria2 || engine == EngineKind::YtDlp
}

/// The configured number of local download slots, which must be positive.
pub fn check_concurrency(value: i64) -> (r: Result<i64, ServiceError>)
    ensures
        value > 0 ==> r == Ok::<i64, ServiceError>(value),
        value <= 0 ==> r == Err::<i64, ServiceError>(ServiceError::NonPositiveConcurrency),
{
    if value <= 0 {
        Err(ServiceError::NonPositiveConcurrency)
    } else {
        Ok(value)
    }
}

/// Whether a local download may start now.
pub fn has_local_capacity(running: i64, limit: i64) -> (r: bool)
    ensures
        r == (running < limit),
{
    running < limit
}

/// Whether a new task starts at once: a local download waits in the queue
/// while all slots are taken.
pub fn starts_now(engine: EngineKind, has_capacity: bool) -> (r: bool)
    ensures
        r == !(spec_is_local(engine) && !has_capacity),
{
    !((engine == EngineKind::Aria2 || engine == EngineKind::YtDlp) && !has_capacity)
}

/// How many queued local tasks to start: the free slots, where there are
/// any.
pub fn queued_batch(limit: i64, running: i64) -> (r: Option<i64>)
    requires
        limit > 0,
        running >= 0,
    ensures
        limit - running > 0 ==> r == Some((limit - running) as i64),
        limit - running <= 0 ==> r is None,
{
    let available = limit - running;
    if available <= 0 {
        None
    } else {
        Some(available)
    }
}

/// How a task leaves the queue to start.
#[derive(Debug, Clone, Copy, PartialEq, Eq, Structural)]
pub enum StartPlan {
    /// A fresh download is handed to the engine.
    Add,
    /// A download that had begun is resumed, as a paused one where the
    /// engine knows it.
    Resume { as_paused: bool },
}

/// How a queued task starts: refused where its settings are disabled or do
/// not take it; resumed where it had begun (it has an engine id, progress
/// or bytes); else added.
pub open spec fn spec_start_plan(
    settings: EngineSummary,
    source_type: SourceType,
    has_engine_task_id: bool,
    has_progress: bool,
    downloaded_bytes: i64,
) -> Result<StartPlan, ServiceError> {
    match spec_accepts(settings, source_type) {
        Err(e) => Err(e),
        Ok(()) => if has_engine_task_id || has_progress || downloaded_bytes > 0 {
            Ok(StartPlan::Resume { as_paused: has_engine_task_id })
        } else {
            Ok(StartPlan::Add)
        },
    }
}

pub fn start_plan(
    settings: &EngineSummary,
    source_type: SourceType,
    has_engine_task_id: bool,
    has_progress: bool,
    downloaded_bytes: i64,
) -> (r: Result<StartPlan, ServiceError>)
    ensures
        match (r, spec_start_plan(*settings, source_type, has_engine_task_id, has_progress, downloaded_bytes)) {
            (Ok(p), Ok(q)) => p == q,
            (Err(e), Err(f)) => same_error(e, f),
            _ => false,
        },
{
    match check_engine_accepts(settings, source_type) {
        Err(e) => Err(e),
        Ok(()) => if has_engine_task_id || has_progress || downloaded_bytes > 0 {
            Ok(StartPlan::Resume { as_paused: has_engine_task_id })
        } else {
            Ok(StartPlan::Add)
        },
    }
}

/// The engine id that a task keeps when it is queued: none after a failure.
pub fn queued_engine_task_id(status: DownloadStatus, engine_task_id: Option<String>) -> (r: Option<String>)
    ensures
        status == DownloadStatus::Failed ==> r is None,
        status != DownloadStatus::Failed ==> r == engine_task_id,
{
    if status == DownloadStatus::Failed {
        None
    } else {
        engine_task_id
    }
}

// ---------------------------------------------------------------------
// Refresh, pause, resume
// ---------------------------------------------------------------------
/// Whether a task's state is asked of its engine on refresh: it must have
/// an engine id and be running or paused.
pub open spec fn spec_needs_refresh(status: DownloadStatus, has_engine_task_id: bool) -> bool {
    has_engine_task_id && (status == DownloadStatus::Running || status == DownloadStatus::Paused)
}

pub fn needs_refresh(status: DownloadStatus, has_engine_task_id: bool) -> (r: bool)
    ensures
        r == spec_needs_refresh(status, has_engine_task_id),
{
    !(status == DownloadStatus::Queued || status == DownloadStatus::Completed || status
        == DownloadStatus::Deleted || status == DownloadStatus::Failed || !has_engine_task_id)
}

/// What pausing does to a task.
#[derive(Debug, Clone, Copy, PartialEq, Eq, Structural)]
pub enum PauseStep {
    /// Only queued and running tasks are paused.
    Skip,
    /// A queued task is paused here, its speed set to zero.
    PauseQueued,
    /// A running task is paused by its engine.
    PauseOnEngine,
}

pub fn pause_step(status: DownloadStatus) -> (r: PauseStep)
    ensures
        r == (if status == DownloadStatus::Queued {
            PauseStep::PauseQueued
        } else if status == DownloadStatus::Running {
            PauseStep::PauseOnEngine
        } else {
            PauseStep::Skip
        }),
{
    match status {
        DownloadStatus::Queued => PauseStep::PauseQueued,
        DownloadStatus::Running => PauseStep::PauseOnEngine,
        _ => PauseStep::Skip,
    }
}

/// Whether a pause frees a slot for the queue: the engine's new state was
/// applied and the task is paused or failed.
pub fn pause_frees_slot(applied: bool, new_status: DownloadStatus) -> (r: bool)
    ensures
        r == (applied && (new_status == DownloadStatus::Paused || new_status == DownloadStatus::Failed)),
{
    applied && (new_status == DownloadStatus::Paused || new_status == DownloadStatus::Failed)
}

/// What resuming does to a task.
#[derive(Debug, Clone, Copy, PartialEq, Eq, Structural)]
pub enum ResumeStep {
    /// Only paused and failed tasks are resumed.
    Skip,
    /// A local download without a free slot waits in the queue.
    Queue,
    /// The engine resumes the task.
    Resume,
}

pub open spec fn spec_resume_step(status: DownloadStatus, engine: EngineKind, has_capacity: bool) -> ResumeStep {
    if !(status == DownloadStatus::Paused || status == DownloadStatus::Failed) {
        ResumeStep::Skip
    } else if spec_is_local(engine) && !has_capacity {
        ResumeStep::Queue
    } else {
        ResumeStep::Resume
    }
}

pub fn resume_step(status: DownloadStatus, engine: EngineKind, has_capacity: bool) -> (r: ResumeStep)
    ensures
        r == spec_resume_step(status, engine, has_capacity),
{
    if !(status == DownloadStatus::Paused || status == DownloadStatus::Failed) {
        ResumeStep::Skip
    } else if (engine == EngineKind::Aria2 || engine == EngineKind::YtDlp) && !has_capacity {
        ResumeStep::Queue
    } else {
        ResumeStep::Resume
    }
}

/// A task is never both paused and resumed by one request: the states that
/// pausing acts on and those that resuming acts on are apart.
pub proof fn lemma_pause_resume_apart(status: DownloadStatus, engine: EngineKind, has_capacity: bool)
    ensures
        (status == DownloadStatus::Queued || status == DownloadStatus::Running) ==> spec_resume_step(
            status,
            engine,
            has_capacity,
        ) == ResumeStep::Skip,
        spec_resume_step(status, engine, has_capacity) != ResumeStep::Skip ==> !(status
            == DownloadStatus::Queued || status == DownloadStatus::Running),
{
}

// ---------------------------------------------------------------------
// Deleting
// ---------------------------------------------------------------------
/// What deleting a task asks of its engine and of the disk.
#[derive(Debug, Clone, Copy, PartialEq, Eq, Structural)]
pub struct DeletePlan {
    /// The downloaded files are removed too.
    pub delete_downloaded: bool,
    /// The engine is asked to drop the task.
    pub call_engine: bool,
}

/// Files are removed where that is asked, for qBittorrent only where they
/// are there; a failed task that no engine knows is not sent to one.
pub open spec fn spec_delete_plan(
    engine: EngineKind,
    status: DownloadStatus,
    has_engine_task_id: bool,
    delete_completed_files: bool,
    entry_exists: bool,
) -> DeletePlan {
    DeletePlan {
        delete_downloaded: delete_completed_files && (engine != EngineKind::QBittorrent || entry_exists),
        call_engine: !(!has_engine_task_id && status == DownloadStatus::Failed),
    }
}

pub fn delete_plan(
    engine: EngineKind,
    status: DownloadStatus,
    has_engine_task_id: bool,
    delete_completed_files: bool,
    entry_exists: bool,
) -> (r: DeletePlan)
    ensures
        r == spec_delete_plan(engine, status, has_engine_task_id, delete_completed_files, entry_exists),
{
    DeletePlan {
        delete_downloaded: delete_completed_files && (engine != EngineKind::QBittorrent || entry_exists),
        call_engine: !(!has_engine_task_id && status == DownloadStatus::Failed),
    }
}

/// What follows the engine's answer to a delete.
#[derive(Debug, Clone, Copy, PartialEq, Eq, Structural)]
pub struct DeleteOutcome {
    /// The downloaded files are removed here (qBittorrent removes its own).
    pub remove_entry: bool,
    /// The task's record is removed.
    pub remove_record: bool,
    /// The task is marked failed and the engine's error reported.
    pub mark_failed: bool,
}

/// After the engine dropped the task, the record goes, with the files
/// where asked; an unfinished task whose engine could not be reached (so
/// that nothing will ever finish or resume its download) loses its partial
/// files too. After the engine refused, a complete task that is not
/// qBittorrent's still goes, with the files where asked; any other task is
/// marked failed.
pub open spec fn spec_delete_outcome(
    engine_ok: bool,
    engine_reached: bool,
    status: DownloadStatus,
    engine: EngineKind,
    delete_downloaded: bool,
) -> DeleteOutcome {
    let orphaned = !engine_reached && status != DownloadStatus::Completed;
    if engine_ok {
        DeleteOutcome {
            remove_entry: engine != EngineKind::QBittorrent && (delete_downloaded || orphaned),
            remove_record: true,
            mark_failed: false,
        }
    } else if status == DownloadStatus::Completed && engine != EngineKind::QBittorrent {
        DeleteOutcome { remove_entry: delete_downloaded, remove_record: true, mark_failed: false }
    } else {
        DeleteOutcome { remove_entry: false, remove_record: false, mark_failed: true }
    }
}

/// `engine_ok`: the engine call (where one was made) succeeded;
/// `engine_reached`: the engine was reached, or no call was needed.
pub fn delete_outcome(
    engine_ok: bool,
    engine_reached: bool,
    status: DownloadStatus,
    engine: EngineKind,
    delete_downloaded: bool,
) -> (r: DeleteOutcome)
    ensures
        r == spec_delete_outcome(engine_ok, engine_reached, status, engine, delete_downloaded),
{
    let orphaned = !engine_reached && !matches!(status, DownloadStatus::Completed);
    let not_qbittorrent = !matches!(engine, EngineKind::QBittorrent);
    if engine_ok {
        DeleteOutcome {
            remove_entry: not_qbittorrent && (delete_downloaded || orphaned),
            remove_record: true,
            mark_failed: false,
        }
    } else if matches!(status, DownloadStatus::Completed) && not_qbittorrent {
        DeleteOutcome { remove_entry: delete_downloaded, remove_record: true, mark_failed: false }
    } else {
        DeleteOutcome { remove_entry: false, remove_record: false, mark_failed: true }
    }
}

/// Without the request to delete files, a task's files are removed only
/// where the task was unfinished, not qBittorrent's, and its engine could
/// not be reached; a complete task's files are never removed unasked; and a
/// record is kept exactly where the task is marked failed.
pub proof fn lemma_delete_unasked_files(
    engine: EngineKind,
    status: DownloadStatus,
    has_engine_task_id: bool,
    entry_exists: bool,
    engine_ok: bool,
    engine_reached: bool,
)
    ensures
        spec_delete_outcome(
            engine_ok,
            engine_reached,
            status,
            engine,
            spec_delete_plan(engine, status, has_engine_task_id, false, entry_exists).delete_downloaded,
        ).remove_entry <==> (engine_ok && !engine_reached && status != DownloadStatus::Completed && engine
            != EngineKind::QBittorrent),
        forall|d: bool|
            #![auto]
            spec_delete_outcome(engine_ok, engine_reached, status, engine, d).remove_record
                != spec_delete_outcome(engine_ok, engine_reached, status, engine, d).mark_failed,
{
}

// ---------------------------------------------------------------------
// Applying an engine's answer
// ---------------------------------------------------------------------
pub open spec fn opt_text(v: Option<&str>) -> Option<Seq<char>> {
    match v {
        Some(s) => Some(s@),
        None => None,
    }
}

/// An engine's answer about a task is applied only while the task is still
/// as it was when the engine was asked: in the same status and under the
/// same engine id (or still without one). A stale answer changes nothing.
pub open spec fn spec_answer_is_current(
    expected_status: DownloadStatus,
    expected_engine_task_id: Option<Seq<char>>,
    current_status: DownloadStatus,
    current_engine_task_id: Option<Seq<char>>,
) -> bool {
    expected_status == current_status && expected_engine_task_id == current_engine_task_id
}

pub fn answer_is_current(
    expected_status: DownloadStatus,
    expected_engine_task_id: Option<&str>,
    current_status: DownloadStatus,
    current_engine_task_id: Option<&str>,
) -> (r: bool)
    ensures
        r == spec_answer_is_current(
            expected_status,
            opt_text(expected_engine_task_id),
            current_status,
            opt_text(current_engine_task_id),
        ),
{
    if expected_status != current_status {
        return false;
    }
    match (expected_engine_task_id, current_engine_task_id) {
        (None, None) => true,
        (Some(a), Some(b)) => seq_eq(&chars_of(a), &chars_of(b)),
        _ => false,
    }
}

/// A task deleted while its engine was being asked stays deleted: no
/// answer asked for a task that was not deleted applies to it.
pub proof fn lemma_stale_answer_keeps_deleted(
    expected_status: DownloadStatus,
    expected_engine_task_id: Option<Seq<char>>,
    current_engine_task_id: Option<Seq<char>>,
)
    requires
        expected_status != DownloadStatus::Deleted,
    ensures
        !spec_answer_is_current(expected_status, expected_engine_task_id, DownloadStatus::Deleted, current_engine_task_id),
{
}

/// The status a task has after one refresh pass: the pass lists the task as
/// `(snapshot_status, snapshot_id)`, asks its engine only where
/// `needs_refresh` holds, and stores the answer's status only where
/// `answer_is_current` holds of the row as it is when the answer comes
/// (`row_status`, `row_id`); otherwise the row keeps its status.
pub open spec fn spec_refreshed_status(
    snapshot_status: DownloadStatus,
    snapshot_id: Option<Seq<char>>,
    row_status: DownloadStatus,
    row_id: Option<Seq<char>>,
    answer_status: DownloadStatus,
) -> DownloadStatus {
    if spec_needs_refresh(snapshot_status, snapshot_id is Some) && spec_answer_is_current(
        snapshot_status,
        snapshot_id,
        row_status,
        row_id,
    ) {
        answer_status
    } else {
        row_status
    }
}

/// Refreshing never brings back a deleted task: over a whole refresh pass,
/// every task whose row is deleted by the time its engine answers is still
/// deleted afterwards, whatever the engine answered.
pub proof fn lemma_refresh_never_revives_deleted(
    snapshots: Seq<(DownloadStatus, Option<Seq<char>>)>,
    rows: Seq<(DownloadStatus, Option<Seq<char>>)>,
    answers: Seq<DownloadStatus>,
)
    requires
        snapshots.len() == rows.len(),
        rows.len() == answers.len(),
    ensures
        forall|i: int|
            0 <= i < rows.len() && (#[trigger] rows[i]).0 == DownloadStatus::Deleted ==> spec_refreshed_status(
                snapshots[i].0,
                snapshots[i].1,
                rows[i].0,
                rows[i].1,
                answers[i],
            ) == DownloadStatus::Deleted,
{
}

/// What follows the engine's answer when a new task is started.
#[derive(Debug, Clone, Copy, PartialEq, Eq, Structural)]
pub enum CreateOutcome {
    /// The engine took the task: its state is stored and the task returned.
    ApplyState,
    /// The engine refused: the new task is dropped and the error returned,
    /// so that no task is left behind that nothing runs.
    DropTask,
}

pub fn create_outcome(engine_ok: bool) -> (r: CreateOutcome)
    ensures
        r == (if engine_ok {
            CreateOutcome::ApplyState
        } else {
            CreateOutcome::DropTask
        }),
{
    if engine_ok {
        CreateOutcome::ApplyState
    } else {
        CreateOutcome::DropTask
    }
}

/// The age limit for clearing records must be positive where given.
pub fn check_clear_days(older_than_days: Option<i64>) -> (r: Result<(), ServiceError>)
    ensures
        r == (match older_than_days {
            Some(d) => if d <= 0 {
                Err::<(), ServiceError>(ServiceError::NonPositiveDays)
            } else {
                Ok(())
            },
            None => Ok(()),
        }),
{
    match older_than_days {
        Some(d) => if d <= 0 {
            Err(ServiceError::NonPositiveDays)
        } else {
            Ok(())
        },
        None => Ok(()),
    }
}

/// A finished record: completed, failed or deleted.
pub open spec fn spec_finished(status: DownloadStatus) -> bool {
    status == DownloadStatus::Completed || status == DownloadStatus::Failed || status == DownloadStatus::Deleted
}

/// Whether clearing records removes a task's record: only a finished one,
/// and, where an age limit is given, only one whose time (its completion,
/// else its creation, as the database normalizes it) is known and lies
/// before the cutoff (as the database computes it). Times are compared as
/// text, as the database compares its normalized `YYYY-MM-DD HH:MM:SS`
/// times; a time or cutoff that the database could not compute never
/// qualifies.
pub open spec fn spec_record_clearable(
    status: DownloadStatus,
    age_limit: bool,
    at: Option<Seq<char>>,
    cutoff: Option<Seq<char>>,
) -> bool {
    spec_finished(status) && (!age_limit || match (at, cutoff) {
        (Some(t), Some(c)) => crate::text::lex_lt(t, c),
        _ => false,
    })
}

pub fn record_clearable(status: DownloadStatus, age_limit: bool, at: Option<&str>, cutoff: Option<&str>) -> (r: bool)
    ensures
        r == spec_record_clearable(status, age_limit, opt_text(at), opt_text(cutoff)),
{
    let finished = status == DownloadStatus::Completed || status == DownloadStatus::Failed || status
        == DownloadStatus::Deleted;
    if !finished {
        return false;
    }
    if !age_limit {
        return true;
    }
    match (at, cutoff) {
        (Some(t), Some(c)) => crate::text::lex_less(&chars_of(t), &chars_of(c)),
        _ => false,
    }
}

/// Clearing never removes a task that is queued, running or paused.
pub proof fn lemma_clear_keeps_unfinished(
    status: DownloadStatus,
    age_limit: bool,
    at: Option<Seq<char>>,
    cutoff: Option<Seq<char>>,
)
    requires
        status == DownloadStatus::Queued || status == DownloadStatus::Running || status == DownloadStatus::Paused,
    ensures
        !spec_record_clearable(status, age_limit, at, cutoff),
{
}

// ---------------------------------------------------------------------
// Files of a task
// ---------------------------------------------------------------------
/// Only magnet and torrent tasks have torrent files.
pub fn check_torrent_files(source_type: SourceType) -> (r: Result<(), ServiceError>)
    ensures
        r == (if source_type == SourceType::Magnet || source_type == SourceType::Torrent {
            Ok::<(), ServiceError>(())
        } else {
            Err(ServiceError::NoTorrentFiles(source_type))
        }),
{
    if source_type == SourceType::Magnet || source_type == SourceType::Torrent {
        Ok(())
    } else {
        Err(ServiceError::NoTorrentFiles(source_type))
    }
}

/// A file selection names at least one file, counting from 1, of a magnet
/// or torrent task.
pub open spec fn spec_check_selection(indexes: Seq<i64>, source_type: SourceType) -> Result<(), ServiceError> {
    if indexes.len() == 0 {
        Err(ServiceError::EmptySelection)
    } else if exists|i: int| 0 <= i < indexes.len() && indexes[i] < 1 {
        Err(ServiceError::SelectionFromOne)
    } else if !(source_type == SourceType::Magnet || source_type == SourceType::Torrent) {
        Err(ServiceError::NoFileSelection(source_type))
    } else {
        Ok(())
    }
}

pub fn check_file_selection(indexes: &[i64], source_type: SourceType) -> (r: Result<(), ServiceError>)
    ensures
        r == spec_check_selection(indexes@, source_type),
{
    if indexes.len() == 0 {
        return Err(ServiceError::EmptySelection);
    }
    let mut i: usize = 0;
    while i < indexes.len()
        invariant
            i <= indexes@.len(),
            forall|j: int| 0 <= j < i ==> indexes@[j] >= 1,
        decreases indexes.len() - i,
    {
        if indexes[i] < 1 {
            return Err(ServiceError::SelectionFromOne);
        }
        i = i + 1;
    }
    if !(source_type == SourceType::Magnet || source_type == SourceType::Torrent) {
        return Err(ServiceError::NoFileSelection(source_type));
    }
    Ok(())
}

/// Only the local engines' downloads are opened from here.
pub fn check_local_file(engine: EngineKind) -> (r: Result<(), ServiceError>)
    ensures
        spec_is_local(engine) ==> r is Ok,
        !spec_is_local(engine) ==> r == Err::<(), ServiceError>(ServiceError::NoLocalFile),
{
    if engine == EngineKind::Aria2 || engine == EngineKind::YtDlp {
        Ok(())
    } else {
        Err(ServiceError::NoLocalFile)
    }
}

pub fn check_local_directory(engine: EngineKind) -> (r: Result<(), ServiceError>)
    ensures
        spec_is_local(engine) ==> r is Ok,
        !spec_is_local(engine) ==> r == Err::<(), ServiceError>(ServiceError::NoLocalDirectory),
{
    if engine == EngineKind::Aria2 || engine == EngineKind::YtDlp {
        Ok(())
    } else {
        Err(ServiceError::NoLocalDirectory)
    }
}

// ---------------------------------------------------------------------
// A new engine state
// ---------------------------------------------------------------------
/// What a new engine state sets off.
#[derive(Debug, PartialEq, Eq)]
pub struct StateEffects {
    /// The name that a magnet task takes from its engine.
    pub rename_to: Option<String>,
    /// A completed task whose source lies in a private domain loses its
    /// record.
    pub check_private_domain: bool,
    /// A finished task frees a slot for the queue.
    pub start_queued: bool,
}

/// A magnet task takes the name that its engine reports, trimmed, where it
/// holds more than whitespace and differs; completion is checked against
/// the private domains; completion and failure free a slot.
pub open spec fn spec_state_effects(
    status: DownloadStatus,
    reported_name: Option<Seq<char>>,
    source_type: SourceType,
    file_name: Seq<char>,
) -> (Option<Seq<char>>, bool, bool) {
    let rename = match reported_name {
        Some(n) => if trim(n).len() > 0 && source_type == SourceType::Magnet && file_name != trim(n) {
            Some(trim(n))
        } else {
            None
        },
        None => None,
    };
    (
        rename,
        status == DownloadStatus::Completed,
        status == DownloadStatus::Completed || status == DownloadStatus::Failed,
    )
}

pub fn state_effects(
    status: DownloadStatus,
    reported_name: Option<&str>,
    source_type: SourceType,
    file_name: &str,
) -> (r: StateEffects)
    ensures
        (
            match r.rename_to {
                Some(n) => Some(n@),
                None => None,
            },
            r.check_private_domain,
            r.start_queued,
        ) == spec_state_effects(
            status,
            match reported_name {
                Some(n) => Some(n@),
                None => None,
            },
            source_type,
            file_name@,
        ),
{
    let rename_to = match reported_name {
        Some(n) => {
            let t = trim_str(n);
            if t.len() > 0 && source_type == SourceType::Magnet && !crate::text::seq_eq(
                &chars_of(file_name),
                &t,
            ) {
                Some(string_of(&t))
            } else {
                None
            }
        },
        None => None,
    };
    StateEffects {
        rename_to,
        check_private_domain: status == DownloadStatus::Completed,
        start_queued: status == DownloadStatus::Completed || status == DownloadStatus::Failed,
    }
}


/// What creating a task does about a file that it would overwrite.
#[derive(Debug, PartialEq, Eq)]
pub enum ConflictStep {
    /// No file is in the way: go on.
    Proceed,
    /// Refuse the request with this message.
    Refuse(String),
    /// Remove the file at this path, then go on.
    Overwrite(String),
    /// Pick a free file name, then go on.
    Rename,
}

/// The step for a conflict (or none) under the requested action; no action
/// means asking the user, which refuses the request with the conflict's
/// message.
pub fn conflict_step(conflict: Option<&DownloadFileConflict>, action: Option<FileConflictAction>) -> (r: ConflictStep)
    ensures
        conflict is None ==> r == ConflictStep::Proceed,
        conflict is Some && (action is None || action == Some(FileConflictAction::Prompt)) ==> (r matches ConflictStep::Refuse(m)
            && m@ == "download file already exists: "@ + conflict->0.path@),
        conflict is Some && action == Some(FileConflictAction::Overwrite) ==> (r matches ConflictStep::Overwrite(p) && p@
            == conflict->0.path@),
        conflict is Some && action == Some(FileConflictAction::Rename) ==> r == ConflictStep::Rename,
{
    match conflict {
        None => ConflictStep::Proceed,
        Some(c) => match action {
            Some(FileConflictAction::Overwrite) => ConflictStep::Overwrite(string_of(&chars_of(c.path.as_str()))),
            Some(FileConflictAction::Rename) => ConflictStep::Rename,
            _ => ConflictStep::Refuse(crate::services::download_file_conflict_message(c)),
        },
    }
}

} // verus!
