//! The rules of the task and settings services: what a new task must hold,
//! which existing tasks it duplicates, which sources are private, which
//! proxies an engine takes, and the tracker lists.
use crate::models::{
    supported_spec, supports, AppSettingsInput, CreateDownloadTaskInput, DownloadDuplicateKind, DownloadDuplicateTaskState, DownloadFileConflict,
    DownloadStatus, EngineKind, SourceType,
};
use crate::text::{
    chars_of, contains, contains_seq, ends_with, extend_vec, find_char, find_seq, first_occurrence,
    has_prefix, has_suffix, is_sep, is_ws, lower_seq, seq_eq, slice_vec, split_chars, split_seq,
    starts_with, string_of, to_ascii_lowercase, to_lowercase, trim, trim_any, trim_any_chars,
    trim_chars, trim_start_any, trim_start_any_chars, trim_end_str, trim_end_str_chars, trim_start_str, trim_start_str_chars,
    trim_str, unicode_lower, views,
};
use vstd::prelude::*;

verus! {

// ---------------------------------------------------------------------
// New tasks
// ---------------------------------------------------------------------
/// Why a new task is refused.
#[derive(Debug, Clone, Copy, PartialEq, Eq, Structural)]
pub enum CreateTaskError {
    SourceRequired,
    FileNameRequired,
    SavePathRequired,
    SelectionEmpty,
    SelectionStartsAtOne,
}

impl CreateTaskError {
    pub fn message(&self) -> (r: &'static str)
        ensures
            r@ == self.message_spec(),
    {
        match self {
            CreateTaskError::SourceRequired => "download source is required",
            CreateTaskError::FileNameRequired => "file name is required",
            CreateTaskError::SavePathRequired => "download path is required",
            CreateTaskError::SelectionEmpty => "selected file indexes cannot be empty",
            CreateTaskError::SelectionStartsAtOne => "selected file indexes must start from 1",
        }
    }

    pub open spec fn message_spec(&self) -> Seq<char> {
        match self {
            CreateTaskError::SourceRequired => "download source is required"@,
            CreateTaskError::FileNameRequired => "file name is required"@,
            CreateTaskError::SavePathRequired => "download path is required"@,
            CreateTaskError::SelectionEmpty => "selected file indexes cannot be empty"@,
            CreateTaskError::SelectionStartsAtOne => "selected file indexes must start from 1"@,
        }
    }
}

/// The first rule that a new task breaks: a source, a file name and (but
/// for qBittorrent) a save path are required, and a file selection, when
/// given, is non-empty and counts from 1.
pub open spec fn create_task_error(
    source: Seq<char>,
    file_name: Seq<char>,
    engine: EngineKind,
    save_path: Seq<char>,
    selected: Option<Seq<i64>>,
) -> Option<CreateTaskError> {
    if trim(source).len() == 0 {
        Some(CreateTaskError::SourceRequired)
    } else if trim(file_name).len() == 0 {
        Some(CreateTaskError::FileNameRequired)
    } else if engine != EngineKind::QBittorrent && trim(save_path).len() == 0 {
        Some(CreateTaskError::SavePathRequired)
    } else {
        match selected {
            Some(ix) => if ix.len() == 0 {
                Some(CreateTaskError::SelectionEmpty)
            } else if exists|i: int| 0 <= i < ix.len() && ix[i] < 1 {
                Some(CreateTaskError::SelectionStartsAtOne)
            } else {
                None
            },
            None => None,
        }
    }
}

pub open spec fn selection_view(s: Option<Vec<i64>>) -> Option<Seq<i64>> {
    match s {
        Some(v) => Some(v@),
        None => None,
    }
}

pub fn validate_create_task_input(input: &CreateDownloadTaskInput) -> (r: Result<(), CreateTaskError>)
    ensures
        match r {
            Ok(()) => create_task_error(
                input.source@,
                input.file_name@,
                input.engine,
                input.save_path@,
                selection_view(input.selected_file_indexes),
            ) is None,
            Err(e) => create_task_error(
                input.source@,
                input.file_name@,
                input.engine,
                input.save_path@,
                selection_view(input.selected_file_indexes),
            ) == Some(e),
        },
{
    if trim_str(input.source.as_str()).len() == 0 {
        return Err(CreateTaskError::SourceRequired);
    }
    if trim_str(input.file_name.as_str()).len() == 0 {
        return Err(CreateTaskError::FileNameRequired);
    }
    if input.engine != EngineKind::QBittorrent && trim_str(input.save_path.as_str()).len() == 0 {
        return Err(CreateTaskError::SavePathRequired);
    }
    match &input.selected_file_indexes {
        Some(indexes) => {
            if indexes.len() == 0 {
                return Err(CreateTaskError::SelectionEmpty);
            }
            let ghost e = create_task_error(
                input.source@,
                input.file_name@,
                input.engine,
                input.save_path@,
                selection_view(input.selected_file_indexes),
            );
            proof {
                assert(e == (if exists|j: int| 0 <= j < indexes@.len() && indexes@[j] < 1 {
                    Some(CreateTaskError::SelectionStartsAtOne)
                } else {
                    None
                }));
            }
            let mut i: usize = 0;
            while i < indexes.len()
                invariant
                    i <= indexes@.len(),
                    forall|j: int| 0 <= j < i ==> indexes@[j] >= 1,
                    e == create_task_error(
                        input.source@,
                        input.file_name@,
                        input.engine,
                        input.save_path@,
                        selection_view(input.selected_file_indexes),
                    ),
                    e == (if exists|j: int| 0 <= j < indexes@.len() && indexes@[j] < 1 {
                        Some(CreateTaskError::SelectionStartsAtOne)
                    } else {
                        None
                    }),
                decreases indexes.len() - i,
            {
                if indexes[i] < 1 {
                    proof {
                        assert(0 <= i < indexes@.len() && indexes@[i as int] < 1);
                    }
                    return Err(CreateTaskError::SelectionStartsAtOne);
                }
                i = i + 1;
            }
        },
        None => {},
    }
    Ok(())
}

/// Whether an engine downloads to this machine.
pub fn is_local_download_engine(engine: EngineKind) -> (r: bool)
    ensures
        r == (engine == EngineKind::Aria2 || engine == EngineKind::YtDlp),
{
    match engine {
        EngineKind::Aria2 | EngineKind::YtDlp => true,
        EngineKind::QBittorrent => false,
    }
}

/// The name a single-file download is saved under: for yt-dlp the name made
/// safe for it, else the name trimmed.
pub open spec fn spec_local_file_name(engine: EngineKind, file_name: Seq<char>) -> Seq<char> {
    if engine == EngineKind::YtDlp {
        crate::ytdlp::spec_sanitize_name(trim(file_name))
    } else {
        trim(file_name)
    }
}

pub fn local_single_file_name(engine: EngineKind, file_name: &str) -> (r: String)
    ensures
        r@ == spec_local_file_name(engine, file_name@),
{
    let t = string_of(&trim_str(file_name));
    if engine == EngineKind::YtDlp {
        crate::ytdlp::sanitize_ytdlp_output_name(t.as_str())
    } else {
        t
    }
}

/// The error text for a file that a new task would overwrite.
pub fn download_file_conflict_message(conflict: &DownloadFileConflict) -> (r: String)
    ensures
        r@ == "download file already exists: "@ + conflict.path@,
{
    let mut v = chars_of("download file already exists: ");
    extend_vec(&mut v, &chars_of(conflict.path.as_str()));
    string_of(&v)
}

/// Whether a Windows file name (no separators) has a stem and an extension:
/// the index of its last dot, when that is not the first character.
pub open spec fn name_dot(name: Seq<char>) -> Option<int> {
    match crate::ytdlp::rindex_of(name, '.') {
        Some(l) => if l >= 1 {
            Some(l)
        } else {
            None
        },
        None => None,
    }
}

/// The `index`-th alternative name for a single-file download:
/// `<stem> (<index>).<extension>`, or `<stem> (<index>)` without an
/// extension.
pub open spec fn spec_name_candidate(requested: Seq<char>, index: u32) -> Seq<char> {
    let name = trim(requested);
    let num = seq![' ', '('] + crate::text::dec(index as nat) + seq![')'];
    match name_dot(name) {
        Some(l) => if l + 1 < name.len() {
            name.take(l) + num + seq!['.'] + name.skip(l + 1)
        } else {
            name.take(l) + num
        },
        None => name + num,
    }
}

pub fn download_file_name_candidate(requested: &str, index: u32) -> (r: String)
    ensures
        r@ == spec_name_candidate(requested@, index),
{
    let name = trim_str(requested);
    let mut num: Vec<char> = vec![' ', '('];
    extend_vec(&mut num, &crate::text::format_u64(index as u64));
    num.push(')');
    let mut out: Vec<char>;
    match crate::ytdlp::rfind_char(&name, '.') {
        Some(l) => if l >= 1 {
            out = slice_vec(&name, 0, l);
            extend_vec(&mut out, &num);
            if name.len() - l > 1 {
                out.push('.');
                let n = name.len();
                extend_vec(&mut out, &slice_vec(&name, l + 1, n));
            }
        } else {
            out = slice_vec(&name, 0, name.len());
            extend_vec(&mut out, &num);
        },
        None => {
            out = slice_vec(&name, 0, name.len());
            extend_vec(&mut out, &num);
        },
    }
    proof {
        assert(name@.subrange(0, name@.len() as int) =~= name@);
        assert(out@ =~= spec_name_candidate(requested@, index));
    }
    string_of(&out)
}

// ---------------------------------------------------------------------
// Duplicates
// ---------------------------------------------------------------------
/// How an existing task counts against a new one: a finished task as
/// completed, a deleted one not at all, any other as active.
pub open spec fn spec_duplicate_state(status: DownloadStatus) -> Option<DownloadDuplicateTaskState> {
    match status {
        DownloadStatus::Completed => Some(DownloadDuplicateTaskState::Completed),
        DownloadStatus::Deleted => None,
        _ => Some(DownloadDuplicateTaskState::Active),
    }
}

pub fn duplicate_task_state(status: DownloadStatus) -> (r: Option<DownloadDuplicateTaskState>)
    ensures
        r == spec_duplicate_state(status),
{
    match status {
        DownloadStatus::Completed => Some(DownloadDuplicateTaskState::Completed),
        DownloadStatus::Queued | DownloadStatus::Running | DownloadStatus::Paused
        | DownloadStatus::Failed => Some(DownloadDuplicateTaskState::Active),
        DownloadStatus::Deleted => None,
    }
}

/// A source as compared for duplicates: trimmed.
pub fn normalize_duplicate_source(value: &str) -> (r: String)
    ensures
        r@ == trim(value@),
{
    string_of(&trim_str(value))
}

/// The text with `\\` turned into `/`.
pub open spec fn forward_slashes(s: Seq<char>) -> Seq<char> {
    Seq::new(s.len(), |i: int| if s[i] == '\\' { '/' } else { s[i] })
}

/// Trailing `/` removed, but for a lone `/`.
pub open spec fn drop_trailing_slashes(s: Seq<char>) -> Seq<char>
    decreases s.len(),
{
    if s.len() > 1 && s.last() == '/' {
        drop_trailing_slashes(s.drop_last())
    } else {
        s
    }
}

/// A save path as compared for duplicates: trimmed, with forward slashes
/// and no trailing slash.
pub open spec fn spec_duplicate_path(value: Seq<char>) -> Seq<char> {
    drop_trailing_slashes(forward_slashes(trim(value)))
}

pub fn normalize_duplicate_path(value: &str) -> (r: String)
    ensures
        r@ == spec_duplicate_path(value@),
{
    let t = trim_str(value);
    let mut v: Vec<char> = Vec::new();
    let mut i: usize = 0;
    while i < t.len()
        invariant
            i <= t@.len(),
            v@ == Seq::new(i as nat, |j: int| if t@[j] == '\\' { '/' } else { t@[j] }),
        decreases t.len() - i,
    {
        if t[i] == '\\' {
            v.push('/');
        } else {
            v.push(t[i]);
        }
        proof {
            assert(v@ =~= Seq::new((i + 1) as nat, |j: int| if t@[j] == '\\' { '/' } else { t@[j] }));
        }
        i = i + 1;
    }
    proof {
        assert(v@ =~= forward_slashes(t@));
    }
    let ghost f = v@;
    while v.len() > 1 && v[v.len() - 1] == '/'
        invariant
            drop_trailing_slashes(f) == drop_trailing_slashes(v@),
        decreases v.len(),
    {
        let ghost before = v@;
        v.pop();
        proof {
            assert(v@ =~= before.drop_last());
        }
    }
    string_of(&v)
}

/// What the final-URL comparison of a task needs next.
#[derive(Debug, Clone, Copy, PartialEq, Eq, Structural)]
pub enum FinalUrlStep {
    /// The task's source is the new task's final URL.
    Same,
    /// The task cannot share the final URL.
    Different,
    /// The task's own final URL must be fetched and compared.
    FetchTaskIdentity,
}

/// Whether a task shares the final URL of a new HTTP download: none without
/// a final URL; yes when the task's source is that URL; otherwise only an
/// HTTP task of the same file name is worth fetching.
pub open spec fn spec_final_url_step(
    input_final_url: Option<Seq<char>>,
    input_file_name: Seq<char>,
    task_source_type: SourceType,
    task_source: Seq<char>,
    task_file_name: Seq<char>,
) -> FinalUrlStep {
    match input_final_url {
        None => FinalUrlStep::Different,
        Some(url) => if url.len() == 0 {
            FinalUrlStep::Different
        } else if trim(task_source) == url {
            FinalUrlStep::Same
        } else if task_source_type != SourceType::Http || trim(task_file_name) != input_file_name {
            FinalUrlStep::Different
        } else {
            FinalUrlStep::FetchTaskIdentity
        },
    }
}

pub fn final_url_step(
    input_final_url: Option<&str>,
    input_file_name: &str,
    task_source_type: SourceType,
    task_source: &str,
    task_file_name: &str,
) -> (r: FinalUrlStep)
    ensures
        r == spec_final_url_step(
            crate::ytdlp::opt_str(input_final_url),
            input_file_name@,
            task_source_type,
            task_source@,
            task_file_name@,
        ),
{
    let url = match input_final_url {
        Some(u) => chars_of(u),
        None => return FinalUrlStep::Different,
    };
    if url.len() == 0 {
        return FinalUrlStep::Different;
    }
    if seq_eq(&trim_str(task_source), &url) {
        return FinalUrlStep::Same;
    }
    if task_source_type != SourceType::Http || !seq_eq(
        &trim_str(task_file_name),
        &chars_of(input_file_name),
    ) {
        return FinalUrlStep::Different;
    }
    FinalUrlStep::FetchTaskIdentity
}

/// What the duplicate check knows of the new task: its trimmed source, its
/// save path and file name as compared, the size its HTTP source reports,
/// and its torrent info hash.
pub struct DuplicateInput {
    pub source: String,
    pub save_path: String,
    pub file_name: String,
    pub total_bytes: Option<i64>,
    pub torrent_info_hash: Option<String>,
}

/// What the duplicate check knows of an existing task. `same_final_url` is
/// the outcome of the final-URL comparison; it counts only for a task whose
/// source differs from the new one.
pub struct DuplicateCandidate {
    pub status: DownloadStatus,
    pub source: String,
    pub save_path: String,
    pub file_name: String,
    pub total_bytes: i64,
    pub same_final_url: bool,
    pub torrent_info_hash: Option<String>,
}

/// One match: the position of the existing task, how it matches and what
/// state it is in.
#[derive(Debug, Clone, Copy, PartialEq, Eq, Structural)]
pub struct DuplicateMatch {
    pub task_index: usize,
    pub kind: DownloadDuplicateKind,
    pub task_state: DownloadDuplicateTaskState,
}

pub open spec fn opt_string_view(v: Option<String>) -> Option<Seq<char>> {
    match v {
        Some(s) => Some(s@),
        None => None,
    }
}

/// The ways an existing task matches the new one, in the order they are
/// reported.
pub open spec fn spec_match_kinds(input: DuplicateInput, task: DuplicateCandidate) -> Seq<DownloadDuplicateKind> {
    let same_source = trim(task.source@) == input.source@;
    let same_name = trim(task.file_name@) == input.file_name@;
    (if same_source {
        seq![DownloadDuplicateKind::SameSource]
    } else {
        Seq::empty()
    }) + (if !same_source && task.same_final_url {
        seq![DownloadDuplicateKind::SameFinalUrl]
    } else {
        Seq::empty()
    }) + (if spec_duplicate_path(task.save_path@) == input.save_path@ && same_name {
        seq![DownloadDuplicateKind::SameSavePath]
    } else {
        Seq::empty()
    }) + (match input.total_bytes {
        Some(total) => if total > 0 && same_name && task.total_bytes == total {
            seq![DownloadDuplicateKind::SameNameAndSize]
        } else {
            Seq::empty()
        },
        None => Seq::empty(),
    }) + (match opt_string_view(input.torrent_info_hash) {
        Some(h) => if opt_string_view(task.torrent_info_hash) == Some(h) {
            seq![DownloadDuplicateKind::SameTorrentInfoHash]
        } else {
            Seq::empty()
        },
        None => Seq::empty(),
    })
}

/// The matches of the tasks before position `n`, in task order.
pub open spec fn spec_duplicate_matches(input: DuplicateInput, tasks: Seq<DuplicateCandidate>, n: int) -> Seq<DuplicateMatch>
    decreases n,
{
    if n <= 0 {
        Seq::empty()
    } else {
        let prev = spec_duplicate_matches(input, tasks, n - 1);
        let t = tasks[n - 1];
        match spec_duplicate_state(t.status) {
            None => prev,
            Some(state) => prev + spec_match_kinds(input, t).map_values(
                |k: DownloadDuplicateKind| DuplicateMatch { task_index: (n - 1) as usize, kind: k, task_state: state },
            ),
        }
    }
}

/// A duplicate check reports only tasks that are not deleted, each in the
/// state its status gives, in task order.
pub proof fn lemma_duplicates_skip_deleted(input: DuplicateInput, tasks: Seq<DuplicateCandidate>, n: int)
    requires
        0 <= n <= tasks.len() <= usize::MAX,
    ensures
        forall|k: int|
            0 <= k < spec_duplicate_matches(input, tasks, n).len() ==> {
                let m = #[trigger] spec_duplicate_matches(input, tasks, n)[k];
                &&& 0 <= m.task_index < n
                &&& tasks[m.task_index as int].status != DownloadStatus::Deleted
                &&& spec_duplicate_state(tasks[m.task_index as int].status) == Some(m.task_state)
                &&& (m.task_state == DownloadDuplicateTaskState::Completed <==> tasks[m.task_index as int].status
                    == DownloadStatus::Completed)
                &&& spec_match_kinds(input, tasks[m.task_index as int]).contains(m.kind)
            },
        forall|j: int, k: int|
            0 <= j < k < spec_duplicate_matches(input, tasks, n).len() ==> (#[trigger] spec_duplicate_matches(
                input,
                tasks,
                n,
            )[j]).task_index <= (#[trigger] spec_duplicate_matches(input, tasks, n)[k]).task_index,
    decreases n,
{
    if n > 0 {
        lemma_duplicates_skip_deleted(input, tasks, n - 1);
        let prev = spec_duplicate_matches(input, tasks, n - 1);
        let t = tasks[n - 1];
        match spec_duplicate_state(t.status) {
            None => {},
            Some(state) => {
                let added = spec_match_kinds(input, t).map_values(
                    |k: DownloadDuplicateKind| DuplicateMatch { task_index: (n - 1) as usize, kind: k, task_state: state },
                );
                let all = prev + added;
                assert(all == spec_duplicate_matches(input, tasks, n));
                assert(((n - 1) as usize) as int == n - 1);
                assert forall|k: int| 0 <= k < all.len() implies {
                    let m = #[trigger] all[k];
                    &&& 0 <= m.task_index < n
                    &&& tasks[m.task_index as int].status != DownloadStatus::Deleted
                    &&& spec_duplicate_state(tasks[m.task_index as int].status) == Some(m.task_state)
                    &&& (m.task_state == DownloadDuplicateTaskState::Completed <==> tasks[m.task_index as int].status
                        == DownloadStatus::Completed)
                    &&& spec_match_kinds(input, tasks[m.task_index as int]).contains(m.kind)
                } by {
                    if k >= prev.len() {
                        let kinds = spec_match_kinds(input, t);
                        assert(all[k] == added[k - prev.len()]);
                        assert(added[k - prev.len()].kind == kinds[k - prev.len()]);
                    } else {
                        assert(all[k] == prev[k]);
                    }
                }
                assert forall|j: int, k: int| 0 <= j < k < all.len() implies (#[trigger] all[j]).task_index
                    <= (#[trigger] all[k]).task_index by {
                    if k >= prev.len() {
                        assert(all[k] == added[k - prev.len()]);
                        if j >= prev.len() {
                            assert(all[j] == added[j - prev.len()]);
                        } else {
                            assert(all[j] == prev[j]);
                        }
                    } else {
                        assert(all[k] == prev[k]);
                        assert(all[j] == prev[j]);
                    }
                }
            },
        }
    }
}

/// How one existing task matches: never both by the same source and by the
/// same final URL; by the same source only where the trimmed sources are
/// equal; by the same save path only where the normalized save paths and
/// the trimmed file names are equal.
pub proof fn lemma_match_kinds(input: DuplicateInput, task: DuplicateCandidate)
    ensures
        !(spec_match_kinds(input, task).contains(DownloadDuplicateKind::SameSource) && spec_match_kinds(
            input,
            task,
        ).contains(DownloadDuplicateKind::SameFinalUrl)),
        spec_match_kinds(input, task).contains(DownloadDuplicateKind::SameSource) ==> trim(task.source@)
            == input.source@,
        spec_match_kinds(input, task).contains(DownloadDuplicateKind::SameSavePath) ==> spec_duplicate_path(
            task.save_path@,
        ) == input.save_path@ && trim(task.file_name@) == input.file_name@,
{
    let same_source = trim(task.source@) == input.source@;
    let same_name = trim(task.file_name@) == input.file_name@;
    let a: Seq<DownloadDuplicateKind> = if same_source {
        seq![DownloadDuplicateKind::SameSource]
    } else {
        Seq::empty()
    };
    let b: Seq<DownloadDuplicateKind> = if !same_source && task.same_final_url {
        seq![DownloadDuplicateKind::SameFinalUrl]
    } else {
        Seq::empty()
    };
    let c: Seq<DownloadDuplicateKind> = if spec_duplicate_path(task.save_path@) == input.save_path@ && same_name {
        seq![DownloadDuplicateKind::SameSavePath]
    } else {
        Seq::empty()
    };
    let d: Seq<DownloadDuplicateKind> = match input.total_bytes {
        Some(total) => if total > 0 && same_name && task.total_bytes == total {
            seq![DownloadDuplicateKind::SameNameAndSize]
        } else {
            Seq::empty()
        },
        None => Seq::empty(),
    };
    let e: Seq<DownloadDuplicateKind> = match opt_string_view(input.torrent_info_hash) {
        Some(h) => if opt_string_view(task.torrent_info_hash) == Some(h) {
            seq![DownloadDuplicateKind::SameTorrentInfoHash]
        } else {
            Seq::empty()
        },
        None => Seq::empty(),
    };
    let all = spec_match_kinds(input, task);
    assert(all == a + b + c + d + e);
    assert forall|i: int| 0 <= i < all.len() implies {
        &&& (all[i] == DownloadDuplicateKind::SameSource ==> same_source)
        &&& (all[i] == DownloadDuplicateKind::SameFinalUrl ==> !same_source)
        &&& (all[i] == DownloadDuplicateKind::SameSavePath ==> spec_duplicate_path(task.save_path@)
            == input.save_path@ && same_name)
    } by {
        let ab = a + b;
        let abc = ab + c;
        let abcd = abc + d;
        if i < a.len() {
            assert(all[i] == a[i]);
        } else if i < ab.len() {
            assert(all[i] == b[i - a.len()]);
        } else if i < abc.len() {
            assert(all[i] == c[i - ab.len()]);
        } else if i < abcd.len() {
            assert(all[i] == d[i - abc.len()]);
        } else {
            assert(all[i] == e[i - abcd.len()]);
        }
    }
}

proof fn lemma_concat_contains<A>(x: Seq<A>, y: Seq<A>, v: A)
    ensures
        (x + y).contains(v) <==> (x.contains(v) || y.contains(v)),
{
    if x.contains(v) {
        let i = choose|i: int| 0 <= i < x.len() && x[i] == v;
        assert((x + y)[i] == v);
    }
    if y.contains(v) {
        let i = choose|i: int| 0 <= i < y.len() && y[i] == v;
        assert((x + y)[x.len() + i] == v);
    }
    if (x + y).contains(v) {
        let i = choose|i: int| 0 <= i < (x + y).len() && (x + y)[i] == v;
        if i < x.len() {
            assert(x[i] == v);
        } else {
            assert(y[i - x.len()] == v);
        }
    }
}

/// Exactly when an existing task matches the new one in each way: by the
/// same source where the trimmed sources are equal; by the same final URL
/// where the sources differ and the final URLs agree; by the same save path
/// where the normalized save paths and trimmed file names are equal; by
/// name and size where the new task's size is known and positive, the
/// trimmed file names are equal and the sizes agree; by the torrent info
/// hash where the new task has one and the task has the same one, whatever
/// the two sources are.
pub proof fn lemma_match_kinds_exact(input: DuplicateInput, task: DuplicateCandidate)
    ensures
        spec_match_kinds(input, task).contains(DownloadDuplicateKind::SameSource) <==> trim(task.source@)
            == input.source@,
        spec_match_kinds(input, task).contains(DownloadDuplicateKind::SameFinalUrl) <==> (trim(task.source@)
            != input.source@ && task.same_final_url),
        spec_match_kinds(input, task).contains(DownloadDuplicateKind::SameSavePath) <==> (spec_duplicate_path(
            task.save_path@,
        ) == input.save_path@ && trim(task.file_name@) == input.file_name@),
        spec_match_kinds(input, task).contains(DownloadDuplicateKind::SameNameAndSize) <==> (input.total_bytes
            matches Some(t) && t > 0 && trim(task.file_name@) == input.file_name@ && task.total_bytes == t),
        spec_match_kinds(input, task).contains(DownloadDuplicateKind::SameTorrentInfoHash) <==> (opt_string_view(
            input.torrent_info_hash,
        ) is Some && opt_string_view(task.torrent_info_hash) == opt_string_view(input.torrent_info_hash)),
{
    let same_source = trim(task.source@) == input.source@;
    let same_name = trim(task.file_name@) == input.file_name@;
    let a: Seq<DownloadDuplicateKind> = if same_source {
        seq![DownloadDuplicateKind::SameSource]
    } else {
        Seq::empty()
    };
    let b: Seq<DownloadDuplicateKind> = if !same_source && task.same_final_url {
        seq![DownloadDuplicateKind::SameFinalUrl]
    } else {
        Seq::empty()
    };
    let c: Seq<DownloadDuplicateKind> = if spec_duplicate_path(task.save_path@) == input.save_path@ && same_name {
        seq![DownloadDuplicateKind::SameSavePath]
    } else {
        Seq::empty()
    };
    let d: Seq<DownloadDuplicateKind> = match input.total_bytes {
        Some(total) => if total > 0 && same_name && task.total_bytes == total {
            seq![DownloadDuplicateKind::SameNameAndSize]
        } else {
            Seq::empty()
        },
        None => Seq::empty(),
    };
    let e: Seq<DownloadDuplicateKind> = match opt_string_view(input.torrent_info_hash) {
        Some(h) => if opt_string_view(task.torrent_info_hash) == Some(h) {
            seq![DownloadDuplicateKind::SameTorrentInfoHash]
        } else {
            Seq::empty()
        },
        None => Seq::empty(),
    };
    assert(spec_match_kinds(input, task) == a + b + c + d + e);
    let kinds = seq![
        DownloadDuplicateKind::SameSource,
        DownloadDuplicateKind::SameFinalUrl,
        DownloadDuplicateKind::SameSavePath,
        DownloadDuplicateKind::SameNameAndSize,
        DownloadDuplicateKind::SameTorrentInfoHash,
    ];
    assert forall|j: int| 0 <= j < 5 implies {
        let v = #[trigger] kinds[j];
        &&& (a + b + c + d + e).contains(v) <==> (a.contains(v) || b.contains(v) || c.contains(v) || d.contains(v)
            || e.contains(v))
    } by {
        let v = kinds[j];
        lemma_concat_contains(a + b + c + d, e, v);
        lemma_concat_contains(a + b + c, d, v);
        lemma_concat_contains(a + b, c, v);
        lemma_concat_contains(a, b, v);
    }
    let k0 = kinds[0];
    let k1 = kinds[1];
    let k2 = kinds[2];
    let k3 = kinds[3];
    let k4 = kinds[4];
    assert(a.contains(k0) <==> same_source) by {
        if same_source {
            assert(a[0] == k0);
        }
    }
    assert(b.contains(k1) <==> (!same_source && task.same_final_url)) by {
        if !same_source && task.same_final_url {
            assert(b[0] == k1);
        }
    }
    assert(c.contains(k2) <==> (spec_duplicate_path(task.save_path@) == input.save_path@ && same_name)) by {
        if spec_duplicate_path(task.save_path@) == input.save_path@ && same_name {
            assert(c[0] == k2);
        }
    }
    assert(d.contains(k3) <==> (input.total_bytes matches Some(t) && t > 0 && same_name && task.total_bytes == t)) by {
        if d.len() > 0 {
            assert(d[0] == k3);
        }
    }
    assert(e.contains(k4) <==> (opt_string_view(input.torrent_info_hash) is Some && opt_string_view(
        task.torrent_info_hash,
    ) == opt_string_view(input.torrent_info_hash))) by {
        if e.len() > 0 {
            assert(e[0] == k4);
        }
    }
}

/// Every way that a task which is not deleted matches the new task is
/// reported, for that task and in the state its status gives; in
/// particular a task with the new task's torrent info hash is reported as
/// such, whatever the two sources are.
pub proof fn lemma_duplicate_matches_complete(input: DuplicateInput, tasks: Seq<DuplicateCandidate>, n: int)
    requires
        0 <= n <= tasks.len() <= usize::MAX,
    ensures
        forall|i: int, kd: DownloadDuplicateKind|
            0 <= i < n && tasks[i].status != DownloadStatus::Deleted && #[trigger] spec_match_kinds(input, tasks[i]).contains(
                kd,
            ) ==> spec_duplicate_matches(input, tasks, n).contains(
                DuplicateMatch {
                    task_index: i as usize,
                    kind: kd,
                    task_state: spec_duplicate_state(tasks[i].status)->0,
                },
            ),
        forall|i: int|
            0 <= i < n && tasks[i].status != DownloadStatus::Deleted && opt_string_view(input.torrent_info_hash)
                is Some && opt_string_view(#[trigger] tasks[i].torrent_info_hash) == opt_string_view(
                input.torrent_info_hash,
            ) ==> spec_duplicate_matches(input, tasks, n).contains(
                DuplicateMatch {
                    task_index: i as usize,
                    kind: DownloadDuplicateKind::SameTorrentInfoHash,
                    task_state: spec_duplicate_state(tasks[i].status)->0,
                },
            ),
    decreases n,
{
    if n > 0 {
        lemma_duplicate_matches_complete(input, tasks, n - 1);
        let prev = spec_duplicate_matches(input, tasks, n - 1);
        let all = spec_duplicate_matches(input, tasks, n);
        let t = tasks[n - 1];
        assert forall|i: int, kd: DownloadDuplicateKind|
            0 <= i < n && tasks[i].status != DownloadStatus::Deleted && #[trigger] spec_match_kinds(input, tasks[i]).contains(
                kd,
            ) implies all.contains(
                DuplicateMatch {
                    task_index: i as usize,
                    kind: kd,
                    task_state: spec_duplicate_state(tasks[i].status)->0,
                },
            ) by {
            let m = DuplicateMatch {
                task_index: i as usize,
                kind: kd,
                task_state: spec_duplicate_state(tasks[i].status)->0,
            };
            match spec_duplicate_state(t.status) {
                None => {
                    assert(i < n - 1);
                    assert(prev.contains(m));
                },
                Some(state) => {
                    let kinds = spec_match_kinds(input, t);
                    let added = kinds.map_values(
                        |k: DownloadDuplicateKind| DuplicateMatch { task_index: (n - 1) as usize, kind: k, task_state: state },
                    );
                    assert(all == prev + added);
                    if i < n - 1 {
                        assert(prev.contains(m));
                        let j = choose|j: int| 0 <= j < prev.len() && prev[j] == m;
                        assert(all[j] == m);
                    } else {
                        let j = choose|j: int| 0 <= j < kinds.len() && kinds[j] == kd;
                        assert(added[j] == m);
                        assert(all[prev.len() + j] == m);
                    }
                },
            }
        }
        assert forall|i: int|
            0 <= i < n && tasks[i].status != DownloadStatus::Deleted && opt_string_view(input.torrent_info_hash)
                is Some && opt_string_view(#[trigger] tasks[i].torrent_info_hash) == opt_string_view(
                input.torrent_info_hash,
            ) implies all.contains(
                DuplicateMatch {
                    task_index: i as usize,
                    kind: DownloadDuplicateKind::SameTorrentInfoHash,
                    task_state: spec_duplicate_state(tasks[i].status)->0,
                },
            ) by {
            lemma_match_kinds_exact(input, tasks[i]);
            assert(spec_match_kinds(input, tasks[i]).contains(DownloadDuplicateKind::SameTorrentInfoHash));
        }
    }
}

fn opt_eq(a: &Option<String>, b: &Option<String>) -> (r: bool)
    ensures
        r == (opt_string_view(*a) == opt_string_view(*b)),
{
    match (a, b) {
        (Some(x), Some(y)) => seq_eq(&chars_of(x.as_str()), &chars_of(y.as_str())),
        (None, None) => true,
        _ => false,
    }
}

fn match_kinds(input: &DuplicateInput, task: &DuplicateCandidate) -> (r: Vec<DownloadDuplicateKind>)
    ensures
        r@ == spec_match_kinds(*input, *task),
{
    let mut r: Vec<DownloadDuplicateKind> = Vec::new();
    let same_source = seq_eq(&trim_str(task.source.as_str()), &chars_of(input.source.as_str()));
    let same_name = seq_eq(&trim_str(task.file_name.as_str()), &chars_of(input.file_name.as_str()));
    if same_source {
        r.push(DownloadDuplicateKind::SameSource);
    }
    if !same_source && task.same_final_url {
        r.push(DownloadDuplicateKind::SameFinalUrl);
    }
    let path = normalize_duplicate_path(task.save_path.as_str());
    if seq_eq(&chars_of(path.as_str()), &chars_of(input.save_path.as_str())) && same_name {
        r.push(DownloadDuplicateKind::SameSavePath);
    }
    match input.total_bytes {
        Some(total) => if total > 0 && same_name && task.total_bytes == total {
            r.push(DownloadDuplicateKind::SameNameAndSize);
        },
        None => {},
    }
    match &input.torrent_info_hash {
        Some(h) => {
            if opt_eq(&task.torrent_info_hash, &input.torrent_info_hash) {
                r.push(DownloadDuplicateKind::SameTorrentInfoHash);
            }
        },
        None => {},
    }
    proof {
        assert(r@ =~= spec_match_kinds(*input, *task));
    }
    r
}

/// The existing tasks that a new task duplicates, each with every way it
/// matches, in task order; deleted tasks are skipped.
pub fn download_duplicate_matches(input: &DuplicateInput, tasks: &[DuplicateCandidate]) -> (r: Vec<DuplicateMatch>)
    ensures
        r@ == spec_duplicate_matches(*input, tasks@, tasks@.len() as int),
{
    let mut out: Vec<DuplicateMatch> = Vec::new();
    let mut i: usize = 0;
    while i < tasks.len()
        invariant
            i <= tasks@.len(),
            out@ == spec_duplicate_matches(*input, tasks@, i as int),
        decreases tasks.len() - i,
    {
        let task = &tasks[i];
        match duplicate_task_state(task.status) {
            None => {},
            Some(state) => {
                let kinds = match_kinds(input, task);
                let ghost before = out@;
                let mut k: usize = 0;
                while k < kinds.len()
                    invariant
                        k <= kinds@.len(),
                        i < tasks@.len(),
                        out@ == before + kinds@.take(k as int).map_values(
                            |kk: DownloadDuplicateKind| DuplicateMatch { task_index: i, kind: kk, task_state: state },
                        ),
                    decreases kinds.len() - k,
                {
                    out.push(DuplicateMatch { task_index: i, kind: kinds[k], task_state: state });
                    proof {
                        assert(kinds@.take(k + 1) =~= kinds@.take(k as int).push(kinds@[k as int]));
                        assert(out@ =~= before + kinds@.take(k + 1).map_values(
                            |kk: DownloadDuplicateKind| DuplicateMatch { task_index: i, kind: kk, task_state: state },
                        ));
                    }
                    k = k + 1;
                }
                proof {
                    assert(kinds@.take(k as int) =~= kinds@);
                    assert(((i + 1) - 1) as usize == i);
                }
            },
        }
        i = i + 1;
    }
    out
}

// ---------------------------------------------------------------------
// Private domains
// ---------------------------------------------------------------------
/// The host of a URL: after `://`, before any path, query or fragment,
/// after any user info, before any port, trimmed and unbracketed, in
/// lowercase.
pub open spec fn spec_source_hostname(source: Seq<char>) -> Option<Seq<char>> {
    match first_occurrence(source, "://"@) {
        None => None,
        Some(i) => {
            let rest = source.skip(i + 3);
            let authority = split_seq(rest, false, seq!['/', '?', '#'])[0];
            let after_user = split_seq(authority, false, seq!['@']).last();
            let host = trim_any(trim(split_seq(after_user, false, seq![':'])[0]), seq!['[', ']']);
            if host.len() == 0 {
                None
            } else {
                Some(unicode_lower(host))
            }
        },
    }
}

pub fn source_hostname(source: &str) -> (r: Option<String>)
    ensures
        match r {
            Some(h) => spec_source_hostname(source@) == Some(h@),
            None => spec_source_hostname(source@) is None,
        },
{
    let s = chars_of(source);
    let sep = chars_of("://");
    proof {
        reveal_strlit("://");
    }
    let i = match find_seq(&s, &sep) {
        Some(i) => i,
        None => return None,
    };
    let n = s.len();
    let rest = slice_vec(&s, i + 3, n);
    proof {
        assert(rest@ =~= s@.skip(i + 3));
    }
    let stops: Vec<char> = vec!['/', '?', '#'];
    let at: Vec<char> = vec!['@'];
    let colon: Vec<char> = vec![':'];
    let brackets: Vec<char> = vec!['[', ']'];
    proof {
        assert(stops@ =~= seq!['/', '?', '#']);
        assert(at@ =~= seq!['@']);
        assert(colon@ =~= seq![':']);
        assert(brackets@ =~= seq!['[', ']']);
    }
    let pieces = split_chars(&rest, false, &stops);
    proof {
        crate::text::lemma_split_nonempty(rest@, false, stops@);
    }
    let authority = &pieces[0];
    let users = split_chars(authority, false, &at);
    proof {
        crate::text::lemma_split_nonempty(authority@, false, at@);
        assert(views(pieces@)[0] == authority@);
    }
    let after_user = &users[users.len() - 1];
    let ports = split_chars(after_user, false, &colon);
    proof {
        crate::text::lemma_split_nonempty(after_user@, false, colon@);
        assert(views(users@).last() == after_user@);
        assert(views(ports@)[0] == ports@[0]@);
    }
    let host = trim_any_chars(&trim_chars(&ports[0]), &brackets);
    if host.len() == 0 {
        return None;
    }
    let text = string_of(&host);
    Some(to_lowercase(text.as_str()))
}

/// A private-download domain as compared: trimmed, lowercase, without
/// leading `*.` and `.` marks.
pub open spec fn spec_normalize_domain(domain: Seq<char>) -> Seq<char> {
    trim_start_any(trim_start_str(unicode_lower(trim(domain)), seq!['*', '.']), seq!['.'])
}

pub fn normalize_domain(domain: &str) -> (r: String)
    ensures
        r@ == spec_normalize_domain(domain@),
{
    let t = string_of(&trim_str(domain));
    let lower = chars_of(to_lowercase(t.as_str()).as_str());
    let star: Vec<char> = vec!['*', '.'];
    let dot: Vec<char> = vec!['.'];
    proof {
        assert(star@ =~= seq!['*', '.']);
        assert(dot@ =~= seq!['.']);
    }
    let a = trim_start_str_chars(&lower, &star);
    string_of(&trim_start_any_chars(&a, &dot))
}

/// A host lies in a domain when it is the domain or one of its subdomains.
pub open spec fn host_in_domain(host: Seq<char>, domain: Seq<char>) -> bool {
    domain.len() > 0 && (host == domain || ends_with(host, seq!['.'] + domain))
}

/// A source is private when its host lies in one of the private domains.
pub open spec fn spec_private_source(source: Seq<char>, domains: Seq<Seq<char>>) -> bool {
    match spec_source_hostname(source) {
        None => false,
        Some(h) => exists|i: int|
            0 <= i < domains.len() && host_in_domain(h, spec_normalize_domain(#[trigger] domains[i])),
    }
}

pub fn matches_private_download_domain(source: &str, domains: &[String]) -> (r: bool)
    ensures
        r == spec_private_source(source@, domains@.map_values(|d: String| d@)),
{
    let ghost ds = domains@.map_values(|d: String| d@);
    let host = match source_hostname(source) {
        Some(h) => chars_of(h.as_str()),
        None => return false,
    };
    let mut i: usize = 0;
    while i < domains.len()
        invariant
            i <= domains@.len(),
            ds == domains@.map_values(|d: String| d@),
            spec_source_hostname(source@) == Some(host@),
            forall|j: int| 0 <= j < i ==> !host_in_domain(host@, spec_normalize_domain(#[trigger] ds[j])),
        decreases domains.len() - i,
    {
        let d = chars_of(normalize_domain(domains[i].as_str()).as_str());
        proof {
            assert(ds[i as int] == domains@[i as int]@);
        }
        if d.len() > 0 {
            if seq_eq(&host, &d) {
                return true;
            }
            let mut dotted: Vec<char> = vec!['.'];
            extend_vec(&mut dotted, &d);
            if has_suffix(&host, &dotted) {
                proof {
                    assert(dotted@ =~= seq!['.'] + d@);
                }
                return true;
            }
            proof {
                assert(dotted@ =~= seq!['.'] + d@);
            }
        }
        i = i + 1;
    }
    false
}

// ---------------------------------------------------------------------
// Proxies
// ---------------------------------------------------------------------
pub open spec fn proxy_schemes_all() -> Seq<Seq<char>> {
    seq!["http://"@, "https://"@, "socks4://"@, "socks4a://"@, "socks5://"@, "socks5h://"@]
}

pub open spec fn proxy_schemes_http_only() -> Seq<Seq<char>> {
    seq!["http://"@, "https://"@]
}

/// The proxy schemes an engine can use: aria2 only HTTP proxies, the
/// others also SOCKS proxies.
pub open spec fn spec_allowed_schemes(engine: EngineKind) -> Seq<Seq<char>> {
    match engine {
        EngineKind::Aria2 => proxy_schemes_http_only(),
        _ => proxy_schemes_all(),
    }
}

pub fn engine_proxy_allowed_schemes(engine: EngineKind) -> (r: Vec<&'static str>)
    ensures
        r@.map_values(|s: &'static str| s@) == spec_allowed_schemes(engine),
{
    let mut r: Vec<&'static str> = Vec::new();
    r.push("http://");
    r.push("https://");
    match engine {
        EngineKind::Aria2 => {},
        EngineKind::YtDlp | EngineKind::QBittorrent => {
            r.push("socks4://");
            r.push("socks4a://");
            r.push("socks5://");
            r.push("socks5h://");
        },
    }
    proof {
        assert(r@.map_values(|s: &'static str| s@) =~= spec_allowed_schemes(engine));
    }
    r
}

/// The scheme names, comma-separated.
pub open spec fn spec_format_schemes(allowed: Seq<Seq<char>>) -> Seq<char> {
    crate::text::join_with(allowed.map_values(|p: Seq<char>| trim_end_str(p, "://"@)), seq![',', ' '])
}

pub fn format_proxy_schemes(allowed: &[&str]) -> (r: String)
    ensures
        r@ == spec_format_schemes(allowed@.map_values(|s: &str| s@)),
{
    let ghost av = allowed@.map_values(|s: &str| s@);
    let sep = chars_of("://");
    let mut parts: Vec<Vec<char>> = Vec::new();
    let mut i: usize = 0;
    while i < allowed.len()
        invariant
            i <= allowed@.len(),
            av == allowed@.map_values(|s: &str| s@),
            sep@ == "://"@,
            views(parts@) == av.take(i as int).map_values(|p: Seq<char>| trim_end_str(p, "://"@)),
        decreases allowed.len() - i,
    {
        let x = trim_end_str_chars(&chars_of(allowed[i]), &sep);
        let ghost before = parts@;
        parts.push(x);
        proof {
            assert(av[i as int] == allowed@[i as int]@);
            assert(views(parts@) =~= views(before).push(x@));
            assert(av.take(i + 1) =~= av.take(i as int).push(av[i as int]));
            assert(views(parts@) =~= av.take(i + 1).map_values(|p: Seq<char>| trim_end_str(p, "://"@)));
        }
        i = i + 1;
    }
    proof {
        assert(av.take(i as int) =~= av);
    }
    let comma: Vec<char> = vec![',', ' '];
    proof {
        assert(comma@ =~= seq![',', ' ']);
    }
    string_of(&crate::text::join_chars(&parts, &comma))
}

/// What `reqwest::Proxy::all` says of a proxy URL: nothing when it accepts
/// it, else its error text.
pub uninterp spec fn proxy_url_error(url: Seq<char>) -> Option<Seq<char>>;

/// `reqwest::Proxy::all(url)`: `None` when reqwest accepts the proxy URL,
/// else the error's text; as `proxy_url_error` names it.
#[verifier::external_body]
fn check_proxy_url(url: &str) -> (r: Option<String>)
    ensures
        match r {
            Some(e) => proxy_url_error(url@) == Some(e@),
            None => proxy_url_error(url@) is None,
        },
{
    reqwest::Proxy::all(url).err().map(|error| error.to_string())
}

/// Why a proxy URL is refused.
pub enum ProxyUrlError {
    /// The scheme is not one the user of the proxy takes; the text names
    /// those it takes.
    SchemeNotAllowed(String),
    /// reqwest refuses the URL; its error text.
    Invalid(String),
}

pub enum ProxyUrlErrorView {
    SchemeNotAllowed(Seq<char>),
    Invalid(Seq<char>),
}

impl View for ProxyUrlError {
    type V = ProxyUrlErrorView;

    open spec fn view(&self) -> ProxyUrlErrorView {
        match self {
            ProxyUrlError::SchemeNotAllowed(s) => ProxyUrlErrorView::SchemeNotAllowed(s@),
            ProxyUrlError::Invalid(s) => ProxyUrlErrorView::Invalid(s@),
        }
    }
}

impl ProxyUrlError {
    /// `proxy url scheme must be one of: <schemes>`, or
    /// `invalid proxy url: <error>`.
    pub fn message(&self) -> (r: String)
        ensures
            r@ == (match self@ {
                ProxyUrlErrorView::SchemeNotAllowed(s) => "proxy url scheme must be one of: "@ + s,
                ProxyUrlErrorView::Invalid(e) => "invalid proxy url: "@ + e,
            }),
    {
        let (mut v, rest) = match self {
            ProxyUrlError::SchemeNotAllowed(s) => (chars_of("proxy url scheme must be one of: "), s),
            ProxyUrlError::Invalid(e) => (chars_of("invalid proxy url: "), e),
        };
        extend_vec(&mut v, &chars_of(rest.as_str()));
        string_of(&v)
    }
}

/// A proxy URL is accepted when blank, or when its scheme is allowed (in
/// any ASCII case) and reqwest accepts it.
pub open spec fn spec_proxy_error(value: Seq<char>, allowed: Seq<Seq<char>>) -> Option<ProxyUrlErrorView> {
    let t = trim(value);
    if t.len() == 0 {
        None
    } else if !(exists|i: int| 0 <= i < allowed.len() && starts_with(lower_seq(t), #[trigger] allowed[i])) {
        Some(ProxyUrlErrorView::SchemeNotAllowed(spec_format_schemes(allowed)))
    } else {
        match proxy_url_error(t) {
            Some(e) => Some(ProxyUrlErrorView::Invalid(e)),
            None => None,
        }
    }
}

pub fn validate_proxy_url(value: &str, allowed_schemes: &[&str]) -> (r: Result<(), ProxyUrlError>)
    ensures
        match r {
            Ok(()) => spec_proxy_error(value@, allowed_schemes@.map_values(|s: &str| s@)) is None,
            Err(e) => spec_proxy_error(value@, allowed_schemes@.map_values(|s: &str| s@)) == Some(e@),
        },
{
    let ghost av = allowed_schemes@.map_values(|s: &str| s@);
    let t = trim_str(value);
    if t.len() == 0 {
        return Ok(());
    }
    let lower = to_ascii_lowercase(&t);
    let mut found = false;
    let mut i: usize = 0;
    while i < allowed_schemes.len()
        invariant
            i <= allowed_schemes@.len(),
            av == allowed_schemes@.map_values(|s: &str| s@),
            found == (exists|j: int| 0 <= j < i && starts_with(lower@, #[trigger] av[j])),
        decreases allowed_schemes.len() - i,
    {
        proof {
            assert(av[i as int] == allowed_schemes@[i as int]@);
        }
        if has_prefix(&lower, &chars_of(allowed_schemes[i])) {
            found = true;
        }
        i = i + 1;
    }
    if !found {
        return Err(ProxyUrlError::SchemeNotAllowed(format_proxy_schemes(allowed_schemes)));
    }
    let text = string_of(&t);
    match check_proxy_url(text.as_str()) {
        Some(e) => Err(ProxyUrlError::Invalid(e)),
        None => Ok(()),
    }
}

// ---------------------------------------------------------------------
// Trackers
// ---------------------------------------------------------------------
pub open spec fn tracker_separators() -> Seq<char> {
    seq![',', ';']
}

/// The pieces of a tracker text between whitespace, `,` and `;`.
pub open spec fn tracker_pieces(value: Seq<char>) -> Seq<Seq<char>> {
    split_seq(value, true, tracker_separators())
}

/// Each piece once, in the order of first appearance.
pub open spec fn dedup(s: Seq<Seq<char>>) -> Seq<Seq<char>>
    decreases s.len(),
{
    if s.len() == 0 {
        s
    } else {
        let r = dedup(s.drop_last());
        if r.contains(s.last()) {
            r
        } else {
            r.push(s.last())
        }
    }
}

/// The pieces of a tracker text, trimmed.
pub open spec fn trimmed_pieces(value: Seq<char>) -> Seq<Seq<char>> {
    tracker_pieces(value).map_values(|p: Seq<char>| trim(p))
}

/// The subscription URLs of a text: its non-empty pieces, each once.
pub open spec fn spec_subscription_urls(value: Seq<char>) -> Seq<Seq<char>> {
    dedup(crate::text::nonempty(trimmed_pieces(value)))
}

fn contains_text(items: &[Vec<char>], x: &[char]) -> (r: bool)
    ensures
        r == views(items@).contains(x@),
{
    let mut i: usize = 0;
    while i < items.len()
        invariant
            i <= items@.len(),
            forall|j: int| 0 <= j < i ==> items@[j]@ != x@,
        decreases items.len() - i,
    {
        if seq_eq(&items[i], x) {
            proof {
                assert(views(items@)[i as int] == x@);
            }
            return true;
        }
        i = i + 1;
    }
    proof {
        assert forall|j: int| 0 <= j < views(items@).len() implies views(items@)[j] != x@ by {
            assert(views(items@)[j] == items@[j]@);
        }
    }
    false
}

pub fn parse_tracker_subscription_urls(value: &str) -> (r: Vec<String>)
    ensures
        r@.map_values(|s: String| s@) == spec_subscription_urls(value@),
{
    let v = chars_of(value);
    let seps: Vec<char> = vec![',', ';'];
    proof {
        assert(seps@ =~= tracker_separators());
    }
    let pieces = split_chars(&v, true, &seps);
    let ghost ts = trimmed_pieces(value@);
    let mut trimmed: Vec<Vec<char>> = Vec::new();
    let mut i: usize = 0;
    while i < pieces.len()
        invariant
            i <= pieces@.len(),
            ts == trimmed_pieces(value@),
            views(pieces@) == tracker_pieces(value@),
            views(trimmed@) == ts.take(i as int),
        decreases pieces.len() - i,
    {
        let t = trim_chars(&pieces[i]);
        let ghost before = trimmed@;
        trimmed.push(t);
        proof {
            assert(views(pieces@)[i as int] == pieces@[i as int]@);
            assert(ts[i as int] == trim(pieces@[i as int]@));
            assert(views(trimmed@) =~= views(before).push(t@));
            assert(ts.take(i + 1) =~= ts.take(i as int).push(ts[i as int]));
        }
        i = i + 1;
    }
    proof {
        assert(ts.take(i as int) =~= ts);
    }
    let kept = crate::text::nonempty_pieces(&trimmed);
    let ghost ks = views(kept@);
    let mut urls: Vec<Vec<char>> = Vec::new();
    let mut k: usize = 0;
    while k < kept.len()
        invariant
            k <= kept@.len(),
            ks == views(kept@),
            views(urls@) == dedup(ks.take(k as int)),
        decreases kept.len() - k,
    {
        proof {
            assert(ks.take(k + 1).drop_last() =~= ks.take(k as int));
            assert(ks.take(k + 1).last() == kept@[k as int]@);
        }
        if !contains_text(&urls, &kept[k]) {
            let x = slice_vec(&kept[k], 0, kept[k].len());
            let ghost before = urls@;
            urls.push(x);
            proof {
                assert(x@ =~= kept@[k as int]@);
                assert(views(urls@) =~= views(before).push(x@));
            }
        }
        k = k + 1;
    }
    proof {
        assert(ks.take(k as int) =~= ks);
    }
    let mut out: Vec<String> = Vec::new();
    let mut j: usize = 0;
    while j < urls.len()
        invariant
            j <= urls@.len(),
            out@.map_values(|s: String| s@) == views(urls@).take(j as int),
        decreases urls.len() - j,
    {
        let s = string_of(&urls[j]);
        let ghost before = out@;
        out.push(s);
        proof {
            assert(out@.map_values(|x: String| x@) =~= before.map_values(|x: String| x@).push(s@));
            assert(views(urls@).take(j + 1) =~= views(urls@).take(j as int).push(urls@[j as int]@));
        }
        j = j + 1;
    }
    proof {
        assert(views(urls@).take(j as int) =~= views(urls@));
    }
    out
}

/// The pieces of a tracker list between whitespace, `,` and `;`.
pub fn parse_trackers(value: &str) -> (r: Vec<String>)
    ensures
        r@.map_values(|s: String| s@) == tracker_pieces(value@),
{
    let v = chars_of(value);
    let seps: Vec<char> = vec![',', ';'];
    proof {
        assert(seps@ =~= tracker_separators());
    }
    let pieces = split_chars(&v, true, &seps);
    let mut out: Vec<String> = Vec::new();
    let mut j: usize = 0;
    while j < pieces.len()
        invariant
            j <= pieces@.len(),
            out@.map_values(|s: String| s@) == views(pieces@).take(j as int),
        decreases pieces.len() - j,
    {
        let s = string_of(&pieces[j]);
        let ghost before = out@;
        out.push(s);
        proof {
            assert(out@.map_values(|x: String| x@) =~= before.map_values(|x: String| x@).push(s@));
            assert(views(pieces@).take(j + 1) =~= views(pieces@).take(j as int).push(pieces@[j as int]@));
        }
        j = j + 1;
    }
    proof {
        assert(views(pieces@).take(j as int) =~= views(pieces@));
    }
    out
}

/// Each tracker once, ignoring ASCII case, in the order of first
/// appearance; entries are trimmed, and blank ones or ones without `://`
/// are dropped.
pub open spec fn normalized_trackers(s: Seq<Seq<char>>) -> Seq<Seq<char>>
    decreases s.len(),
{
    if s.len() == 0 {
        s
    } else {
        let r = normalized_trackers(s.drop_last());
        let t = trim(s.last());
        if t.len() == 0 || !contains_seq(t, "://"@) || exists|i: int|
            0 <= i < r.len() && crate::text::eq_ic(#[trigger] r[i], t) {
            r
        } else {
            r.push(t)
        }
    }
}

fn contains_text_ic(items: &[Vec<char>], x: &[char]) -> (r: bool)
    ensures
        r == exists|i: int| 0 <= i < items@.len() && crate::text::eq_ic(#[trigger] views(items@)[i], x@),
{
    let mut i: usize = 0;
    while i < items.len()
        invariant
            i <= items@.len(),
            forall|j: int| 0 <= j < i ==> !crate::text::eq_ic(#[trigger] views(items@)[j], x@),
        decreases items.len() - i,
    {
        proof {
            assert(views(items@)[i as int] == items@[i as int]@);
        }
        if crate::text::eq_ignore_ascii_case(&items[i], x) {
            return true;
        }
        i = i + 1;
    }
    false
}

pub fn normalize_trackers(trackers: Vec<String>) -> (r: Vec<String>)
    ensures
        r@.map_values(|s: String| s@) == normalized_trackers(trackers@.map_values(|s: String| s@)),
{
    let ghost ts = trackers@.map_values(|s: String| s@);
    let scheme = chars_of("://");
    let mut kept: Vec<Vec<char>> = Vec::new();
    let mut i: usize = 0;
    while i < trackers.len()
        invariant
            i <= trackers@.len(),
            ts == trackers@.map_values(|s: String| s@),
            scheme@ == "://"@,
            views(kept@) == normalized_trackers(ts.take(i as int)),
        decreases trackers.len() - i,
    {
        let t = trim_str(trackers[i].as_str());
        proof {
            assert(ts.take(i + 1).drop_last() =~= ts.take(i as int));
            assert(ts.take(i + 1).last() == trackers@[i as int]@);
        }
        if t.len() > 0 && contains(&t, &scheme) && !contains_text_ic(&kept, &t) {
            let ghost before = kept@;
            kept.push(t);
            proof {
                assert(views(kept@) =~= views(before).push(t@));
            }
        }
        i = i + 1;
    }
    proof {
        assert(ts.take(i as int) =~= ts);
    }
    let mut out: Vec<String> = Vec::new();
    let mut j: usize = 0;
    while j < kept.len()
        invariant
            j <= kept@.len(),
            out@.map_values(|s: String| s@) == views(kept@).take(j as int),
        decreases kept.len() - j,
    {
        let s = string_of(&kept[j]);
        let ghost before = out@;
        out.push(s);
        proof {
            assert(out@.map_values(|x: String| x@) =~= before.map_values(|x: String| x@).push(s@));
            assert(views(kept@).take(j + 1) =~= views(kept@).take(j as int).push(kept@[j as int]@));
        }
        j = j + 1;
    }
    proof {
        assert(views(kept@).take(j as int) =~= views(kept@));
    }
    out
}

/// Deduplication keeps exactly the pieces it was given, each once.
pub proof fn lemma_dedup(s: Seq<Seq<char>>)
    ensures
        dedup(s).no_duplicates(),
        forall|x: Seq<char>| dedup(s).contains(x) <==> s.contains(x),
    decreases s.len(),
{
    if s.len() > 0 {
        lemma_dedup(s.drop_last());
        let r = dedup(s.drop_last());
        assert forall|x: Seq<char>| dedup(s).contains(x) <==> s.contains(x) by {
            if s.contains(x) {
                let i = choose|i: int| 0 <= i < s.len() && s[i] == x;
                if i < s.len() - 1 {
                    assert(s.drop_last()[i] == x);
                }
            }
            if s.drop_last().contains(x) {
                let i = choose|i: int| 0 <= i < s.drop_last().len() && s.drop_last()[i] == x;
                assert(s[i] == x);
            }
            if !r.contains(s.last()) {
                assert(r.push(s.last())[r.len() as int] == s.last());
                if r.push(s.last()).contains(x) {
                    let i = choose|i: int| 0 <= i < r.len() + 1 && r.push(s.last())[i] == x;
                    if i < r.len() {
                        assert(r[i] == x);
                    }
                }
                if r.contains(x) {
                    let i = choose|i: int| 0 <= i < r.len() && r[i] == x;
                    assert(r.push(s.last())[i] == x);
                }
            }
        }
    }
}

/// The subscription URLs of a text are non-empty and each appears once.
pub proof fn lemma_subscription_urls_distinct(value: Seq<char>)
    ensures
        spec_subscription_urls(value).no_duplicates(),
        forall|i: int| 0 <= i < spec_subscription_urls(value).len() ==> (#[trigger] spec_subscription_urls(value)[i]).len() > 0,
{
    let pieces = crate::text::nonempty(trimmed_pieces(value));
    lemma_nonempty_items(trimmed_pieces(value));
    lemma_dedup(pieces);
    assert forall|i: int| 0 <= i < spec_subscription_urls(value).len() implies (#[trigger] spec_subscription_urls(value)[i]).len() > 0 by {
        let x = dedup(pieces)[i];
        assert(dedup(pieces).contains(x));
        assert(pieces.contains(x));
        assert(crate::text::nonempty(trimmed_pieces(value)).contains(x));
    }
}

proof fn lemma_nonempty_items(s: Seq<Seq<char>>)
    ensures
        forall|x: Seq<char>| crate::text::nonempty(s).contains(x) ==> x.len() > 0,
    decreases s.len(),
{
    if s.len() > 0 {
        lemma_nonempty_items(s.drop_last());
        let r = crate::text::nonempty(s.drop_last());
        assert forall|x: Seq<char>| crate::text::nonempty(s).contains(x) implies x.len() > 0 by {
            if s.last().len() > 0 {
                let i = choose|i: int| 0 <= i < r.len() + 1 && r.push(s.last())[i] == x;
                if i < r.len() {
                    assert(r.contains(x));
                }
            }
        }
    }
}

/// A normalized tracker list names no tracker twice, even in another ASCII
/// case, and every entry is a non-empty URL with `://`.
pub proof fn lemma_normalized_trackers_distinct(s: Seq<Seq<char>>)
    ensures
        forall|i: int, j: int|
            0 <= i < j < normalized_trackers(s).len() ==> !crate::text::eq_ic(
                #[trigger] normalized_trackers(s)[i],
                #[trigger] normalized_trackers(s)[j],
            ),
        forall|i: int|
            0 <= i < normalized_trackers(s).len() ==> (#[trigger] normalized_trackers(s)[i]).len() > 0
                && contains_seq(normalized_trackers(s)[i], "://"@),
    decreases s.len(),
{
    if s.len() > 0 {
        lemma_normalized_trackers_distinct(s.drop_last());
        let r = normalized_trackers(s.drop_last());
        let t = trim(s.last());
        if !(t.len() == 0 || !contains_seq(t, "://"@) || exists|i: int|
            0 <= i < r.len() && crate::text::eq_ic(#[trigger] r[i], t)) {
            let n = r.push(t);
            assert(normalized_trackers(s) == n);
            assert forall|i: int, j: int| 0 <= i < j < n.len() implies !crate::text::eq_ic(
                #[trigger] n[i],
                #[trigger] n[j],
            ) by {
                if j == r.len() {
                    assert(n[i] == r[i]);
                    assert(!crate::text::eq_ic(r[i], t));
                } else {
                    assert(n[i] == r[i] && n[j] == r[j]);
                }
            }
            assert forall|i: int| 0 <= i < n.len() implies (#[trigger] n[i]).len() > 0
                && contains_seq(n[i], "://"@) by {
                if i < r.len() {
                    assert(n[i] == r[i]);
                }
            }
        }
    }
}

// ---------------------------------------------------------------------
// Application settings
// ---------------------------------------------------------------------
/// Why application settings are refused.
pub enum AppSettingsError {
    ThemeMode,
    PasswordRequired,
    /// The web access URL is not `http://` and a host and port.
    WebAccessUrl(crate::web::BindAddressError),
    /// The host and port do not parse as a socket address; the parser's
    /// error text.
    WebAccessAddress(String),
    DomainEmpty,
    Proxy(ProxyUrlError),
    ConcurrencyNotPositive,
    CleanupDaysNotPositive,
}

pub enum AppSettingsErrorView {
    ThemeMode,
    PasswordRequired,
    WebAccessUrl(crate::web::BindAddressError),
    WebAccessAddress(Seq<char>),
    DomainEmpty,
    Proxy(ProxyUrlErrorView),
    ConcurrencyNotPositive,
    CleanupDaysNotPositive,
}

impl View for AppSettingsError {
    type V = AppSettingsErrorView;

    open spec fn view(&self) -> AppSettingsErrorView {
        match self {
            AppSettingsError::ThemeMode => AppSettingsErrorView::ThemeMode,
            AppSettingsError::PasswordRequired => AppSettingsErrorView::PasswordRequired,
            AppSettingsError::WebAccessUrl(e) => AppSettingsErrorView::WebAccessUrl(*e),
            AppSettingsError::WebAccessAddress(t) => AppSettingsErrorView::WebAccessAddress(t@),
            AppSettingsError::DomainEmpty => AppSettingsErrorView::DomainEmpty,
            AppSettingsError::Proxy(e) => AppSettingsErrorView::Proxy(e@),
            AppSettingsError::ConcurrencyNotPositive => AppSettingsErrorView::ConcurrencyNotPositive,
            AppSettingsError::CleanupDaysNotPositive => AppSettingsErrorView::CleanupDaysNotPositive,
        }
    }
}

/// The text of an application settings error.
pub open spec fn spec_app_settings_message(e: AppSettingsErrorView) -> Seq<char> {
    match e {
        AppSettingsErrorView::ThemeMode => "theme mode must be light or dark"@,
        AppSettingsErrorView::PasswordRequired => "web access password is required"@,
        AppSettingsErrorView::WebAccessUrl(b) => match b {
            crate::web::BindAddressError::NotHttp => "web access URL must start with http://"@,
            crate::web::BindAddressError::NotHostAndPort => "web access URL must only include host and port"@,
        },
        AppSettingsErrorView::WebAccessAddress(t) => t,
        AppSettingsErrorView::DomainEmpty => "private download domain cannot be empty"@,
        AppSettingsErrorView::Proxy(p) => match p {
            ProxyUrlErrorView::SchemeNotAllowed(s) => "proxy url scheme must be one of: "@ + s,
            ProxyUrlErrorView::Invalid(t) => "invalid proxy url: "@ + t,
        },
        AppSettingsErrorView::ConcurrencyNotPositive => "local download concurrency must be greater than 0"@,
        AppSettingsErrorView::CleanupDaysNotPositive => "auto cleanup days must be greater than 0"@,
    }
}

impl AppSettingsError {
    pub fn message(&self) -> (r: String)
        ensures
            r@ == spec_app_settings_message(self@),
    {
        match self {
            AppSettingsError::ThemeMode => string_of(&chars_of("theme mode must be light or dark")),
            AppSettingsError::PasswordRequired => string_of(&chars_of("web access password is required")),
            AppSettingsError::WebAccessUrl(b) => string_of(&chars_of(b.message())),
            AppSettingsError::WebAccessAddress(t) => string_of(&chars_of(t.as_str())),
            AppSettingsError::DomainEmpty => string_of(&chars_of("private download domain cannot be empty")),
            AppSettingsError::Proxy(p) => p.message(),
            AppSettingsError::ConcurrencyNotPositive => string_of(
                &chars_of("local download concurrency must be greater than 0"),
            ),
            AppSettingsError::CleanupDaysNotPositive => string_of(&chars_of("auto cleanup days must be greater than 0")),
        }
    }
}

/// The first rule that application settings break, in the order they are
/// checked: the theme is light or dark; web access needs a password; the
/// web access URL names a host and port that parse (`address_parse_error`
/// is what the socket-address parser said of them); no private domain is
/// blank; the proxy is valid; concurrency and cleanup days are positive.
pub open spec fn spec_app_settings_error(input: AppSettingsInput, address_parse_error: Option<Seq<char>>) -> Option<
    AppSettingsErrorView,
> {
    if input.theme_mode@ != "light"@ && input.theme_mode@ != "dark"@ {
        Some(AppSettingsErrorView::ThemeMode)
    } else if input.web_access_enabled && trim(input.web_access_password@).len() == 0 {
        Some(AppSettingsErrorView::PasswordRequired)
    } else if crate::web::spec_bind_address(input.web_access_url@) is Err {
        Some(AppSettingsErrorView::WebAccessUrl(crate::web::spec_bind_address(input.web_access_url@)->Err_0))
    } else if address_parse_error is Some {
        Some(AppSettingsErrorView::WebAccessAddress(address_parse_error->0))
    } else if exists|i: int| 0 <= i < input.private_download_domains@.len() && spec_normalize_domain(
        #[trigger] input.private_download_domains@[i]@,
    ).len() == 0 {
        Some(AppSettingsErrorView::DomainEmpty)
    } else if spec_proxy_error(input.app_proxy_url@, proxy_schemes_all()) is Some {
        Some(AppSettingsErrorView::Proxy(spec_proxy_error(input.app_proxy_url@, proxy_schemes_all())->0))
    } else if input.local_download_concurrency <= 0 {
        Some(AppSettingsErrorView::ConcurrencyNotPositive)
    } else if input.auto_clean_download_tasks_days <= 0 {
        Some(AppSettingsErrorView::CleanupDaysNotPositive)
    } else {
        None
    }
}

/// The application settings service's rules on what it saves.
pub struct AppSettingsService;

impl AppSettingsService {
    /// Checks application settings before they are saved.
    /// `address_parse_error` is the socket-address parser's error text for
    /// the host and port of the web access URL, if it failed.
    pub fn validate_input(input: &AppSettingsInput, address_parse_error: Option<String>) -> (r: Result<(), AppSettingsError>)
        ensures
            match r {
                Ok(()) => spec_app_settings_error(*input, opt_string_view(address_parse_error)) is None,
                Err(e) => spec_app_settings_error(*input, opt_string_view(address_parse_error)) == Some(e@),
            },
    {
        let theme = chars_of(input.theme_mode.as_str());
        if !seq_eq(&theme, &chars_of("light")) && !seq_eq(&theme, &chars_of("dark")) {
            return Err(AppSettingsError::ThemeMode);
        }
        if input.web_access_enabled && trim_str(input.web_access_password.as_str()).len() == 0 {
            return Err(AppSettingsError::PasswordRequired);
        }
        match crate::web::bind_address_from_url(input.web_access_url.as_str()) {
            Err(e) => return Err(AppSettingsError::WebAccessUrl(e)),
            Ok(_) => {},
        }
        match address_parse_error {
            Some(t) => return Err(AppSettingsError::WebAccessAddress(t)),
            None => {},
        }
        let mut i: usize = 0;
        while i < input.private_download_domains.len()
            invariant
                i <= input.private_download_domains@.len(),
                !(input.theme_mode@ != "light"@ && input.theme_mode@ != "dark"@),
                !(input.web_access_enabled && trim(input.web_access_password@).len() == 0),
                crate::web::spec_bind_address(input.web_access_url@) is Ok,
                address_parse_error is None,
                forall|j: int| 0 <= j < i ==> spec_normalize_domain(
                    #[trigger] input.private_download_domains@[j]@,
                ).len() > 0,
            decreases input.private_download_domains.len() - i,
        {
            let d = normalize_domain(input.private_download_domains[i].as_str());
            if chars_of(d.as_str()).len() == 0 {
                proof {
                    assert(spec_normalize_domain(input.private_download_domains@[i as int]@).len() == 0);
                }
                return Err(AppSettingsError::DomainEmpty);
            }
            i = i + 1;
        }
        let all = engine_proxy_allowed_schemes(EngineKind::YtDlp);
        match validate_proxy_url(input.app_proxy_url.as_str(), &all) {
            Err(e) => return Err(AppSettingsError::Proxy(e)),
            Ok(()) => {},
        }
        if input.local_download_concurrency <= 0 {
            return Err(AppSettingsError::ConcurrencyNotPositive);
        }
        if input.auto_clean_download_tasks_days <= 0 {
            return Err(AppSettingsError::CleanupDaysNotPositive);
        }
        Ok(())
    }
}

// ---------------------------------------------------------------------
// Engine settings
// ---------------------------------------------------------------------
/// Engine settings as the user submits them. The two seed ratios are
/// floating-point numbers and stay outside; of each, only whether it is a
/// finite non-negative number is carried.
pub struct EngineSettingsFields {
    pub id: String,
    pub engine: EngineKind,
    pub name: String,
    pub enabled: bool,
    pub executable_path: Option<String>,
    pub default_download_dir: String,
    pub default_args: String,
    pub connection_url: Option<String>,
    pub username: Option<String>,
    pub password: Option<String>,
    pub remote_path: Option<String>,
    pub supported_source_types: Vec<SourceType>,
    pub preferred_domains: Vec<String>,
    pub tracker_subscription_url: Option<String>,
    pub trackers: Vec<String>,
    pub proxy_url: Option<String>,
    pub user_agent: Option<String>,
    pub speed_limit_bytes_per_sec: i64,
    pub qbittorrent_download_limit_bytes_per_sec: i64,
    pub qbittorrent_upload_limit_bytes_per_sec: i64,
    pub qbittorrent_seed_ratio_limit_valid: bool,
    pub qbittorrent_seed_time_limit_minutes: i64,
    pub aria2_enable_dht: bool,
    pub aria2_enable_dht6: bool,
    pub aria2_enable_peer_exchange: bool,
    pub aria2_enable_lpd: bool,
    pub aria2_bt_listen_port: i64,
    pub aria2_bt_max_peers: i64,
    pub aria2_max_connection_per_server: i64,
    pub aria2_split: i64,
    pub aria2_min_split_size: String,
    pub aria2_file_allocation: String,
    pub aria2_seed_time: i64,
    pub aria2_seed_ratio_valid: bool,
    pub priority: i64,
}

/// Why engine settings are refused.
pub enum EngineSettingsError {
    NameRequired,
    UnsupportedSourceType(EngineKind, SourceType),
    Proxy(ProxyUrlError),
    UserAgentLineBreak,
    NegativeSpeedLimit,
    NegativeQbDownloadLimit,
    NegativeQbUploadLimit,
    NegativeQbSeedRatio,
    NegativeQbSeedTime,
    ListenPortRange,
    NegativeMaxPeers,
    MaxConnectionBelowOne,
    SplitBelowOne,
    MinSplitSize,
    FileAllocation,
    NegativeSeedTime,
    NegativeSeedRatio,
}

pub enum EngineSettingsErrorView {
    NameRequired,
    UnsupportedSourceType(EngineKind, SourceType),
    Proxy(ProxyUrlErrorView),
    UserAgentLineBreak,
    NegativeSpeedLimit,
    NegativeQbDownloadLimit,
    NegativeQbUploadLimit,
    NegativeQbSeedRatio,
    NegativeQbSeedTime,
    ListenPortRange,
    NegativeMaxPeers,
    MaxConnectionBelowOne,
    SplitBelowOne,
    MinSplitSize,
    FileAllocation,
    NegativeSeedTime,
    NegativeSeedRatio,
}

impl View for EngineSettingsError {
    type V = EngineSettingsErrorView;

    open spec fn view(&self) -> EngineSettingsErrorView {
        match self {
            EngineSettingsError::NameRequired => EngineSettingsErrorView::NameRequired,
            EngineSettingsError::UnsupportedSourceType(e, t) => EngineSettingsErrorView::UnsupportedSourceType(*e, *t),
            EngineSettingsError::Proxy(p) => EngineSettingsErrorView::Proxy(p@),
            EngineSettingsError::UserAgentLineBreak => EngineSettingsErrorView::UserAgentLineBreak,
            EngineSettingsError::NegativeSpeedLimit => EngineSettingsErrorView::NegativeSpeedLimit,
            EngineSettingsError::NegativeQbDownloadLimit => EngineSettingsErrorView::NegativeQbDownloadLimit,
            EngineSettingsError::NegativeQbUploadLimit => EngineSettingsErrorView::NegativeQbUploadLimit,
            EngineSettingsError::NegativeQbSeedRatio => EngineSettingsErrorView::NegativeQbSeedRatio,
            EngineSettingsError::NegativeQbSeedTime => EngineSettingsErrorView::NegativeQbSeedTime,
            EngineSettingsError::ListenPortRange => EngineSettingsErrorView::ListenPortRange,
            EngineSettingsError::NegativeMaxPeers => EngineSettingsErrorView::NegativeMaxPeers,
            EngineSettingsError::MaxConnectionBelowOne => EngineSettingsErrorView::MaxConnectionBelowOne,
            EngineSettingsError::SplitBelowOne => EngineSettingsErrorView::SplitBelowOne,
            EngineSettingsError::MinSplitSize => EngineSettingsErrorView::MinSplitSize,
            EngineSettingsError::FileAllocation => EngineSettingsErrorView::FileAllocation,
            EngineSettingsError::NegativeSeedTime => EngineSettingsErrorView::NegativeSeedTime,
            EngineSettingsError::NegativeSeedRatio => EngineSettingsErrorView::NegativeSeedRatio,
        }
    }
}

/// The text of an engine settings error.
pub open spec fn spec_engine_settings_message(e: EngineSettingsErrorView) -> Seq<char> {
    match e {
        EngineSettingsErrorView::NameRequired => "engine settings name is required"@,
        EngineSettingsErrorView::UnsupportedSourceType(k, t) => k.db_name() + " does not support "@ + t.db_name()
            + " tasks"@,
        EngineSettingsErrorView::Proxy(p) => match p {
            ProxyUrlErrorView::SchemeNotAllowed(s) => "proxy url scheme must be one of: "@ + s,
            ProxyUrlErrorView::Invalid(t) => "invalid proxy url: "@ + t,
        },
        EngineSettingsErrorView::UserAgentLineBreak => "user agent cannot contain line breaks"@,
        EngineSettingsErrorView::NegativeSpeedLimit => "speed limit cannot be negative"@,
        EngineSettingsErrorView::NegativeQbDownloadLimit => "qBittorrent download limit cannot be negative"@,
        EngineSettingsErrorView::NegativeQbUploadLimit => "qBittorrent upload limit cannot be negative"@,
        EngineSettingsErrorView::NegativeQbSeedRatio => "qBittorrent seed ratio limit cannot be negative"@,
        EngineSettingsErrorView::NegativeQbSeedTime => "qBittorrent seed time limit cannot be negative"@,
        EngineSettingsErrorView::ListenPortRange => "aria2 BT listen port must be between 1 and 65535"@,
        EngineSettingsErrorView::NegativeMaxPeers => "aria2 BT max peers cannot be negative"@,
        EngineSettingsErrorView::MaxConnectionBelowOne => "aria2 max connection per server must be at least 1"@,
        EngineSettingsErrorView::SplitBelowOne => "aria2 split must be at least 1"@,
        EngineSettingsErrorView::MinSplitSize => "aria2 min split size is required and cannot contain spaces"@,
        EngineSettingsErrorView::FileAllocation => "aria2 file allocation must be one of none, prealloc, trunc, falloc"@,
        EngineSettingsErrorView::NegativeSeedTime => "aria2 seed time cannot be negative"@,
        EngineSettingsErrorView::NegativeSeedRatio => "aria2 seed ratio cannot be negative"@,
    }
}

fn static_text(t: &str) -> (r: String)
    ensures
        r@ == t@,
{
    string_of(&chars_of(t))
}

impl EngineSettingsError {
    pub fn message(&self) -> (r: String)
        ensures
            r@ == spec_engine_settings_message(self@),
    {
        match self {
            EngineSettingsError::NameRequired => static_text("engine settings name is required"),
            EngineSettingsError::UnsupportedSourceType(k, t) => {
                let mut v = chars_of(k.as_db());
                extend_vec(&mut v, &chars_of(" does not support "));
                extend_vec(&mut v, &chars_of(t.as_db()));
                extend_vec(&mut v, &chars_of(" tasks"));
                string_of(&v)
            },
            EngineSettingsError::Proxy(p) => p.message(),
            EngineSettingsError::UserAgentLineBreak => static_text("user agent cannot contain line breaks"),
            EngineSettingsError::NegativeSpeedLimit => static_text("speed limit cannot be negative"),
            EngineSettingsError::NegativeQbDownloadLimit => static_text("qBittorrent download limit cannot be negative"),
            EngineSettingsError::NegativeQbUploadLimit => static_text("qBittorrent upload limit cannot be negative"),
            EngineSettingsError::NegativeQbSeedRatio => static_text("qBittorrent seed ratio limit cannot be negative"),
            EngineSettingsError::NegativeQbSeedTime => static_text("qBittorrent seed time limit cannot be negative"),
            EngineSettingsError::ListenPortRange => static_text("aria2 BT listen port must be between 1 and 65535"),
            EngineSettingsError::NegativeMaxPeers => static_text("aria2 BT max peers cannot be negative"),
            EngineSettingsError::MaxConnectionBelowOne => static_text("aria2 max connection per server must be at least 1"),
            EngineSettingsError::SplitBelowOne => static_text("aria2 split must be at least 1"),
            EngineSettingsError::MinSplitSize => static_text("aria2 min split size is required and cannot contain spaces"),
            EngineSettingsError::FileAllocation => static_text(
                "aria2 file allocation must be one of none, prealloc, trunc, falloc",
            ),
            EngineSettingsError::NegativeSeedTime => static_text("aria2 seed time cannot be negative"),
            EngineSettingsError::NegativeSeedRatio => static_text("aria2 seed ratio cannot be negative"),
        }
    }
}

/// The first requested source type that the engine does not support.
pub open spec fn first_unsupported(engine: EngineKind, requested: Seq<SourceType>) -> Option<SourceType> {
    if exists|i: int| 0 <= i < requested.len() && !supports(engine, requested[i]) {
        Some(requested[choose|i: int| 0 <= i < requested.len() && !supports(engine, requested[i]) && forall|j: int| 0 <= j < i ==> supports(engine, requested[j])])
    } else {
        None
    }
}

pub open spec fn has_line_break(s: Seq<char>) -> bool {
    s.contains('\r') || s.contains('\n')
}

pub open spec fn has_whitespace(s: Seq<char>) -> bool {
    exists|i: int| 0 <= i < s.len() && is_ws(s[i])
}

pub open spec fn file_allocation_known(s: Seq<char>) -> bool {
    s == "none"@ || s == "prealloc"@ || s == "trunc"@ || s == "falloc"@
}

pub open spec fn nonblank_opt(v: Option<String>) -> Option<Seq<char>> {
    match v {
        Some(s) => if trim(s@).len() > 0 {
            Some(trim(s@))
        } else {
            None
        },
        None => None,
    }
}

/// The first rule that engine settings break, in the order they are
/// checked.
pub open spec fn spec_engine_settings_error(input: EngineSettingsFields) -> Option<EngineSettingsErrorView> {
    if trim(input.name@).len() == 0 {
        Some(EngineSettingsErrorView::NameRequired)
    } else if first_unsupported(input.engine, input.supported_source_types@) is Some {
        Some(EngineSettingsErrorView::UnsupportedSourceType(input.engine, first_unsupported(input.engine, input.supported_source_types@)->0))
    } else if nonblank_opt(input.proxy_url) is Some && spec_proxy_error(nonblank_opt(input.proxy_url)->0, spec_allowed_schemes(input.engine)) is Some {
        Some(EngineSettingsErrorView::Proxy(spec_proxy_error(nonblank_opt(input.proxy_url)->0, spec_allowed_schemes(input.engine))->0))
    } else if nonblank_opt(input.user_agent) is Some && has_line_break(nonblank_opt(input.user_agent)->0) {
        Some(EngineSettingsErrorView::UserAgentLineBreak)
    } else if input.speed_limit_bytes_per_sec < 0 {
        Some(EngineSettingsErrorView::NegativeSpeedLimit)
    } else if input.qbittorrent_download_limit_bytes_per_sec < 0 {
        Some(EngineSettingsErrorView::NegativeQbDownloadLimit)
    } else if input.qbittorrent_upload_limit_bytes_per_sec < 0 {
        Some(EngineSettingsErrorView::NegativeQbUploadLimit)
    } else if !input.qbittorrent_seed_ratio_limit_valid {
        Some(EngineSettingsErrorView::NegativeQbSeedRatio)
    } else if input.qbittorrent_seed_time_limit_minutes < 0 {
        Some(EngineSettingsErrorView::NegativeQbSeedTime)
    } else if input.aria2_bt_listen_port < 1 || input.aria2_bt_listen_port > 65535 {
        Some(EngineSettingsErrorView::ListenPortRange)
    } else if input.aria2_bt_max_peers < 0 {
        Some(EngineSettingsErrorView::NegativeMaxPeers)
    } else if input.aria2_max_connection_per_server < 1 {
        Some(EngineSettingsErrorView::MaxConnectionBelowOne)
    } else if input.aria2_split < 1 {
        Some(EngineSettingsErrorView::SplitBelowOne)
    } else if trim(input.aria2_min_split_size@).len() == 0 || has_whitespace(trim(input.aria2_min_split_size@)) {
        Some(EngineSettingsErrorView::MinSplitSize)
    } else if !file_allocation_known(lower_seq(trim(input.aria2_file_allocation@))) {
        Some(EngineSettingsErrorView::FileAllocation)
    } else if input.aria2_seed_time < 0 {
        Some(EngineSettingsErrorView::NegativeSeedTime)
    } else if !input.aria2_seed_ratio_valid {
        Some(EngineSettingsErrorView::NegativeSeedRatio)
    } else {
        None
    }
}

/// The engine's source types, in the engine's order, that were requested.
pub open spec fn kept_source_types(engine: EngineKind, requested: Seq<SourceType>) -> Seq<SourceType> {
    keep_requested(supported_spec(engine), requested)
}

/// The types of `all`, in order, that were requested.
pub open spec fn keep_requested(all: Seq<SourceType>, requested: Seq<SourceType>) -> Seq<SourceType>
    decreases all.len(),
{
    if all.len() == 0 {
        all
    } else if requested.contains(all.last()) {
        keep_requested(all.drop_last(), requested).push(all.last())
    } else {
        keep_requested(all.drop_last(), requested)
    }
}

/// The subscription URLs one per line, or none when there are none.
pub open spec fn spec_subscription_text(v: Option<String>) -> Option<Seq<char>> {
    match v {
        Some(s) => if spec_subscription_urls(s@).len() == 0 {
            None
        } else {
            Some(crate::text::join_with(spec_subscription_urls(s@), seq!['\n']))
        },
        None => None,
    }
}

fn first_unsupported_source_type(engine: EngineKind, requested: &[SourceType]) -> (r: Option<SourceType>)
    ensures
        r == first_unsupported(engine, requested@),
{
    let mut i: usize = 0;
    while i < requested.len()
        invariant
            i <= requested@.len(),
            forall|j: int| 0 <= j < i ==> supports(engine, requested@[j]),
        decreases requested.len() - i,
    {
        if !crate::models::engine_supports_source_type(engine, requested[i]) {
            proof {
                let c = choose|c: int| 0 <= c < requested@.len() && !supports(engine, requested@[c]) && forall|j: int| 0 <= j < c ==> supports(engine, requested@[j]);
                assert(0 <= i < requested@.len() && !supports(engine, requested@[i as int]) && forall|j: int| 0 <= j < i ==> supports(engine, requested@[j]));
                if c < i {
                    assert(supports(engine, requested@[c]));
                }
                if i < c {
                    assert(supports(engine, requested@[i as int]));
                }
            }
            return Some(requested[i]);
        }
        i = i + 1;
    }
    None
}

fn nonblank_string(v: &Option<String>) -> (r: Option<String>)
    ensures
        opt_string_view(r) == nonblank_opt(*v),
{
    match v {
        Some(s) => {
            let t = trim_str(s.as_str());
            if t.len() > 0 {
                Some(string_of(&t))
            } else {
                None
            }
        },
        None => None,
    }
}

proof fn lemma_keep_requested_members(all: Seq<SourceType>, req: Seq<SourceType>)
    ensures
        forall|x: SourceType| #[trigger] keep_requested(all, req).contains(x) <==> (all.contains(x) && req.contains(x)),
    decreases all.len(),
{
    if all.len() > 0 {
        lemma_keep_requested_members(all.drop_last(), req);
        let r = keep_requested(all.drop_last(), req);
        assert forall|x: SourceType| #[trigger] keep_requested(all, req).contains(x) <==> (all.contains(x) && req.contains(x)) by {
            if all.contains(x) {
                let i = choose|i: int| 0 <= i < all.len() && all[i] == x;
                if i < all.len() - 1 {
                    assert(all.drop_last()[i] == x);
                }
            }
            if all.drop_last().contains(x) {
                let i = choose|i: int| 0 <= i < all.drop_last().len() && all.drop_last()[i] == x;
                assert(all[i] == x);
            }
            if req.contains(all.last()) {
                let n = r.push(all.last());
                assert(n[r.len() as int] == all.last());
                if n.contains(x) {
                    let k = choose|k: int| 0 <= k < n.len() && n[k] == x;
                    if k < r.len() {
                        assert(r[k] == x);
                    }
                }
                if r.contains(x) {
                    let k = choose|k: int| 0 <= k < r.len() && r[k] == x;
                    assert(n[k] == x);
                }
            }
        }
    }
}

proof fn lemma_keep_requested_same(all: Seq<SourceType>, r1: Seq<SourceType>, r2: Seq<SourceType>)
    requires
        forall|x: SourceType| all.contains(x) ==> (r1.contains(x) <==> r2.contains(x)),
    ensures
        keep_requested(all, r1) == keep_requested(all, r2),
    decreases all.len(),
{
    if all.len() > 0 {
        assert forall|x: SourceType| all.drop_last().contains(x) implies (r1.contains(x) <==> r2.contains(x)) by {
            let i = choose|i: int| 0 <= i < all.drop_last().len() && all.drop_last()[i] == x;
            assert(all[i] == x);
        }
        lemma_keep_requested_same(all.drop_last(), r1, r2);
        assert(all[all.len() - 1] == all.last());
    }
}

proof fn lemma_keep_requested_twice(all: Seq<SourceType>, requested: Seq<SourceType>)
    ensures
        keep_requested(all, keep_requested(all, requested)) == keep_requested(all, requested),
        forall|x: SourceType| #[trigger] keep_requested(all, requested).contains(x) ==> all.contains(x),
{
    lemma_keep_requested_members(all, requested);
    lemma_keep_requested_same(all, keep_requested(all, requested), requested);
}

proof fn lemma_supported_listed(engine: EngineKind, t: SourceType)
    requires
        supported_spec(engine).contains(t),
    ensures
        supports(engine, t),
{
    let all = supported_spec(engine);
    let j = choose|j: int| 0 <= j < all.len() && all[j] == t;
}

/// Keeping the engine's source types twice keeps the same, and every kept
/// type is one the engine takes.
pub proof fn lemma_kept_source_types_idempotent(engine: EngineKind, requested: Seq<SourceType>)
    ensures
        kept_source_types(engine, kept_source_types(engine, requested)) == kept_source_types(engine, requested),
        first_unsupported(engine, kept_source_types(engine, requested)) is None,
{
    let k = kept_source_types(engine, requested);
    lemma_keep_requested_twice(supported_spec(engine), requested);
    assert forall|i: int| 0 <= i < k.len() implies supports(engine, #[trigger] k[i]) by {
        assert(k.contains(k[i]));
        lemma_supported_listed(engine, k[i]);
    }
}

proof fn lemma_dedup_distinct(s: Seq<Seq<char>>)
    requires
        s.no_duplicates(),
    ensures
        dedup(s) == s,
    decreases s.len(),
{
    if s.len() > 0 {
        lemma_dedup_distinct(s.drop_last());
        if s.drop_last().contains(s.last()) {
            let i = choose|i: int| 0 <= i < s.drop_last().len() && s.drop_last()[i] == s.last();
            assert(s[i] == s[s.len() - 1]);
        }
        assert(s.drop_last().push(s.last()) =~= s);
    }
}

/// Splitting the subscription URLs written one per line gives them back.
pub proof fn lemma_subscription_urls_idempotent(value: Seq<char>)
    requires
        spec_subscription_urls(value).len() > 0,
    ensures
        spec_subscription_urls(crate::text::join_with(spec_subscription_urls(value), seq!['\n'])) == spec_subscription_urls(value),
{
    let seps = tracker_separators();
    let pieces = tracker_pieces(value);
    let trimmed = trimmed_pieces(value);
    let ne = crate::text::nonempty(trimmed);
    let u = spec_subscription_urls(value);
    crate::text::lemma_split_pieces(value, true, seps);
    crate::text::lemma_nonempty_all(trimmed);
    lemma_dedup(ne);
    lemma_subscription_urls_distinct(value);
    assert forall|i: int, j: int| 0 <= i < u.len() && 0 <= j < u[i].len() implies !is_sep(#[trigger] u[i][j], true, seps) by {
        assert(u.contains(u[i]));
        assert(ne.contains(u[i]));
        assert(trimmed.contains(u[i]));
        let k = choose|k: int| 0 <= k < trimmed.len() && trimmed[k] == u[i];
        assert(!is_sep(pieces[k][j], true, seps)) by {
            assert forall|m: int| 0 <= m < pieces[k].len() implies !is_ws(#[trigger] pieces[k][m]) by {
                assert(!is_sep(pieces[k][m], true, seps));
            }
            crate::text::lemma_trim_no_ws(pieces[k]);
            assert(trimmed[k] == trim(pieces[k]));
        }
    }
    assert(is_ws('\n'));
    assert(is_sep('\n', true, seps));
    crate::text::lemma_split_join_sep(u, '\n', true, seps);
    let joined = crate::text::join_with(u, seq!['\n']);
    assert(tracker_pieces(joined) == u);
    assert forall|i: int| 0 <= i < u.len() implies trim(#[trigger] u[i]) == u[i] by {
        assert forall|m: int| 0 <= m < u[i].len() implies !is_ws(#[trigger] u[i][m]) by {
            assert(!is_sep(u[i][m], true, seps));
        }
        crate::text::lemma_trim_no_ws(u[i]);
    }
    assert(trimmed_pieces(joined) =~= u);
    crate::text::lemma_nonempty_all(u);
    lemma_dedup_distinct(u);
}

proof fn lemma_normalized_trackers_trimmed(s: Seq<Seq<char>>)
    ensures
        forall|i: int| 0 <= i < normalized_trackers(s).len() ==> trim(#[trigger] normalized_trackers(s)[i]) == normalized_trackers(s)[i],
    decreases s.len(),
{
    if s.len() > 0 {
        lemma_normalized_trackers_trimmed(s.drop_last());
        crate::text::lemma_trim_idempotent(s.last());
        let r = normalized_trackers(s.drop_last());
        let n = normalized_trackers(s);
        assert forall|i: int| 0 <= i < n.len() implies trim(#[trigger] n[i]) == n[i] by {
            if i < r.len() {
                assert(n[i] == r[i]);
            }
        }
    }
}

proof fn lemma_normalized_trackers_fixed(n: Seq<Seq<char>>)
    requires
        forall|i: int| 0 <= i < n.len() ==> trim(#[trigger] n[i]) == n[i] && n[i].len() > 0 && contains_seq(n[i], "://"@),
        forall|i: int, j: int| 0 <= i < j < n.len() ==> !crate::text::eq_ic(#[trigger] n[i], #[trigger] n[j]),
    ensures
        normalized_trackers(n) == n,
    decreases n.len(),
{
    if n.len() > 0 {
        let d = n.drop_last();
        assert forall|i: int| 0 <= i < d.len() implies trim(#[trigger] d[i]) == d[i] && d[i].len() > 0 && contains_seq(d[i], "://"@) by {
            assert(d[i] == n[i]);
        }
        assert forall|i: int, j: int| 0 <= i < j < d.len() implies !crate::text::eq_ic(#[trigger] d[i], #[trigger] d[j]) by {
            assert(d[i] == n[i] && d[j] == n[j]);
        }
        lemma_normalized_trackers_fixed(d);
        let t = trim(n.last());
        assert(n[n.len() - 1] == n.last());
        assert(t == n.last());
        assert(!exists|i: int| 0 <= i < d.len() && crate::text::eq_ic(#[trigger] d[i], t)) by {
            if exists|i: int| 0 <= i < d.len() && crate::text::eq_ic(#[trigger] d[i], t) {
                let i = choose|i: int| 0 <= i < d.len() && crate::text::eq_ic(#[trigger] d[i], t);
                assert(d[i] == n[i]);
                assert(!crate::text::eq_ic(n[i], n[n.len() - 1]));
            }
        }
        assert(d.push(n.last()) =~= n);
    }
}

/// Normalizing normalized trackers changes nothing.
pub proof fn lemma_normalized_trackers_idempotent(s: Seq<Seq<char>>)
    ensures
        normalized_trackers(normalized_trackers(s)) == normalized_trackers(s),
{
    lemma_normalized_trackers_trimmed(s);
    lemma_normalized_trackers_distinct(s);
    lemma_normalized_trackers_fixed(normalized_trackers(s));
}

/// `out` is `input` checked and put in canonical form: the name, proxy,
/// user agent, minimum split size and file allocation trimmed (the last in
/// lowercase), blank proxy and user agent dropped, the source types in the
/// engine's order, the subscription URLs one per line, and the trackers
/// normalized; every other field is kept.
pub open spec fn spec_engine_settings_normalized(input: EngineSettingsFields, out: EngineSettingsFields) -> bool {
    &&& spec_engine_settings_error(input) is None
    &&& out.name@ == trim(input.name@)
    &&& out.supported_source_types@ == kept_source_types(input.engine, input.supported_source_types@)
    &&& opt_string_view(out.proxy_url) == nonblank_opt(input.proxy_url)
    &&& opt_string_view(out.user_agent) == nonblank_opt(input.user_agent)
    &&& out.aria2_min_split_size@ == trim(input.aria2_min_split_size@)
    &&& out.aria2_file_allocation@ == lower_seq(trim(input.aria2_file_allocation@))
    &&& opt_string_view(out.tracker_subscription_url) == spec_subscription_text(input.tracker_subscription_url)
    &&& out.trackers@.map_values(|s: String| s@) == normalized_trackers(input.trackers@.map_values(|s: String| s@))
    &&& out.id == input.id
    &&& out.engine == input.engine
    &&& out.enabled == input.enabled
    &&& out.executable_path == input.executable_path
    &&& out.default_download_dir == input.default_download_dir
    &&& out.default_args == input.default_args
    &&& out.connection_url == input.connection_url
    &&& out.username == input.username
    &&& out.password == input.password
    &&& out.remote_path == input.remote_path
    &&& out.preferred_domains == input.preferred_domains
    &&& out.speed_limit_bytes_per_sec == input.speed_limit_bytes_per_sec
    &&& out.qbittorrent_download_limit_bytes_per_sec == input.qbittorrent_download_limit_bytes_per_sec
    &&& out.qbittorrent_upload_limit_bytes_per_sec == input.qbittorrent_upload_limit_bytes_per_sec
    &&& out.qbittorrent_seed_ratio_limit_valid == input.qbittorrent_seed_ratio_limit_valid
    &&& out.qbittorrent_seed_time_limit_minutes == input.qbittorrent_seed_time_limit_minutes
    &&& out.aria2_enable_dht == input.aria2_enable_dht
    &&& out.aria2_enable_dht6 == input.aria2_enable_dht6
    &&& out.aria2_enable_peer_exchange == input.aria2_enable_peer_exchange
    &&& out.aria2_enable_lpd == input.aria2_enable_lpd
    &&& out.aria2_bt_listen_port == input.aria2_bt_listen_port
    &&& out.aria2_bt_max_peers == input.aria2_bt_max_peers
    &&& out.aria2_max_connection_per_server == input.aria2_max_connection_per_server
    &&& out.aria2_split == input.aria2_split
    &&& out.aria2_seed_time == input.aria2_seed_time
    &&& out.aria2_seed_ratio_valid == input.aria2_seed_ratio_valid
    &&& out.priority == input.priority
}

/// Normalizing engine settings that were just normalized accepts them and
/// changes nothing: the output is already in canonical form.
pub proof fn lemma_normalize_engine_settings_idempotent(input: EngineSettingsFields, out: EngineSettingsFields)
    requires
        spec_engine_settings_normalized(input, out),
    ensures
        spec_engine_settings_normalized(out, out),
{
    crate::text::lemma_trim_idempotent(input.name@);
    lemma_kept_source_types_idempotent(input.engine, input.supported_source_types@);
    match input.proxy_url {
        Some(p) => crate::text::lemma_trim_idempotent(p@),
        None => {},
    }
    match input.user_agent {
        Some(u) => crate::text::lemma_trim_idempotent(u@),
        None => {},
    }
    crate::text::lemma_trim_idempotent(input.aria2_min_split_size@);
    crate::text::lemma_lower_trim(input.aria2_file_allocation@);
    match input.tracker_subscription_url {
        Some(t) => if spec_subscription_urls(t@).len() > 0 {
            lemma_subscription_urls_idempotent(t@);
        },
        None => {},
    }
    lemma_normalized_trackers_idempotent(input.trackers@.map_values(|s: String| s@));
}

/// Checks engine settings and puts them in canonical form: the name, proxy,
/// user agent, minimum split size and file allocation trimmed (the last in
/// lowercase), blank proxy and user agent dropped, the source types in the
/// engine's order, the subscription URLs one per line, and the trackers
/// normalized; every other field is kept.
pub fn normalize_engine_settings_input(input: EngineSettingsFields) -> (r: Result<EngineSettingsFields, EngineSettingsError>)
    ensures
        match r {
            Err(e) => spec_engine_settings_error(input) == Some(e@),
            Ok(out) => spec_engine_settings_normalized(input, out),
        },
{
    let name = trim_str(input.name.as_str());
    if name.len() == 0 {
        return Err(EngineSettingsError::NameRequired);
    }
    match first_unsupported_source_type(input.engine, &input.supported_source_types) {
        Some(t) => return Err(EngineSettingsError::UnsupportedSourceType(input.engine, t)),
        None => {},
    }
    let all = crate::models::supported_source_types(input.engine);
    let mut kept: Vec<SourceType> = Vec::new();
    let mut i: usize = 0;
    proof {
        assert(all@.take(0) =~= Seq::<SourceType>::empty());
    }
    while i < all.len()
        invariant
            i <= all@.len(),
            all@ == supported_spec(input.engine),
            kept@ == keep_requested(all@.take(i as int), input.supported_source_types@),
        decreases all.len() - i,
    {
        proof {
            assert(all@.take(i + 1).drop_last() =~= all@.take(i as int));
        }
        if crate::models::contains_source_type(&input.supported_source_types, all[i]) {
            kept.push(all[i]);
        }
        i = i + 1;
    }
    proof {
        assert(all@.take(i as int) =~= all@);
    }
    let proxy_url = nonblank_string(&input.proxy_url);
    match &proxy_url {
        Some(p) => {
            let allowed = engine_proxy_allowed_schemes(input.engine);
            match validate_proxy_url(p.as_str(), &allowed) {
                Err(e) => return Err(EngineSettingsError::Proxy(e)),
                Ok(()) => {},
            }
        },
        None => {},
    }
    let user_agent = nonblank_string(&input.user_agent);
    match &user_agent {
        Some(u) => {
            let c = chars_of(u.as_str());
            if crate::text::contains_char(&c, '\r') || crate::text::contains_char(&c, '\n') {
                return Err(EngineSettingsError::UserAgentLineBreak);
            }
        },
        None => {},
    }
    if input.speed_limit_bytes_per_sec < 0 {
        return Err(EngineSettingsError::NegativeSpeedLimit);
    }
    if input.qbittorrent_download_limit_bytes_per_sec < 0 {
        return Err(EngineSettingsError::NegativeQbDownloadLimit);
    }
    if input.qbittorrent_upload_limit_bytes_per_sec < 0 {
        return Err(EngineSettingsError::NegativeQbUploadLimit);
    }
    if !input.qbittorrent_seed_ratio_limit_valid {
        return Err(EngineSettingsError::NegativeQbSeedRatio);
    }
    if input.qbittorrent_seed_time_limit_minutes < 0 {
        return Err(EngineSettingsError::NegativeQbSeedTime);
    }
    if input.aria2_bt_listen_port < 1 || input.aria2_bt_listen_port > 65535 {
        return Err(EngineSettingsError::ListenPortRange);
    }
    if input.aria2_bt_max_peers < 0 {
        return Err(EngineSettingsError::NegativeMaxPeers);
    }
    if input.aria2_max_connection_per_server < 1 {
        return Err(EngineSettingsError::MaxConnectionBelowOne);
    }
    if input.aria2_split < 1 {
        return Err(EngineSettingsError::SplitBelowOne);
    }
    let min_split = trim_str(input.aria2_min_split_size.as_str());
    let mut ws = false;
    let mut k: usize = 0;
    while k < min_split.len()
        invariant
            k <= min_split@.len(),
            ws == (exists|j: int| 0 <= j < k && is_ws(min_split@[j])),
        decreases min_split.len() - k,
    {
        if crate::text::is_whitespace(min_split[k]) {
            ws = true;
        }
        k = k + 1;
    }
    if min_split.len() == 0 || ws {
        return Err(EngineSettingsError::MinSplitSize);
    }
    let allocation = to_ascii_lowercase(&trim_str(input.aria2_file_allocation.as_str()));
    if !(seq_eq(&allocation, &chars_of("none")) || seq_eq(&allocation, &chars_of("prealloc"))
        || seq_eq(&allocation, &chars_of("trunc")) || seq_eq(&allocation, &chars_of("falloc"))) {
        return Err(EngineSettingsError::FileAllocation);
    }
    if input.aria2_seed_time < 0 {
        return Err(EngineSettingsError::NegativeSeedTime);
    }
    if !input.aria2_seed_ratio_valid {
        return Err(EngineSettingsError::NegativeSeedRatio);
    }
    let subscription = match &input.tracker_subscription_url {
        Some(value) => {
            let urls = parse_tracker_subscription_urls(value.as_str());
            if urls.len() == 0 {
                None
            } else {
                let mut parts: Vec<Vec<char>> = Vec::new();
                let mut j: usize = 0;
                while j < urls.len()
                    invariant
                        j <= urls@.len(),
                        views(parts@) == urls@.map_values(|s: String| s@).take(j as int),
                    decreases urls.len() - j,
                {
                    let c = chars_of(urls[j].as_str());
                    let ghost before = parts@;
                    parts.push(c);
                    proof {
                        assert(views(parts@) =~= views(before).push(c@));
                        assert(urls@.map_values(|s: String| s@).take(j + 1) =~= urls@.map_values(|s: String| s@).take(j as int).push(urls@[j as int]@));
                    }
                    j = j + 1;
                }
                proof {
                    assert(urls@.map_values(|s: String| s@).take(j as int) =~= urls@.map_values(|s: String| s@));
                }
                let nl: Vec<char> = vec!['\n'];
                proof {
                    assert(nl@ =~= seq!['\n']);
                }
                Some(string_of(&crate::text::join_chars(&parts, &nl)))
            }
        },
        None => None,
    };
    let trackers = normalize_trackers(input.trackers);
    Ok(EngineSettingsFields {
        id: input.id,
        engine: input.engine,
        name: string_of(&name),
        enabled: input.enabled,
        executable_path: input.executable_path,
        default_download_dir: input.default_download_dir,
        default_args: input.default_args,
        connection_url: input.connection_url,
        username: input.username,
        password: input.password,
        remote_path: input.remote_path,
        supported_source_types: kept,
        preferred_domains: input.preferred_domains,
        tracker_subscription_url: subscription,
        trackers,
        proxy_url,
        user_agent,
        speed_limit_bytes_per_sec: input.speed_limit_bytes_per_sec,
        qbittorrent_download_limit_bytes_per_sec: input.qbittorrent_download_limit_bytes_per_sec,
        qbittorrent_upload_limit_bytes_per_sec: input.qbittorrent_upload_limit_bytes_per_sec,
        qbittorrent_seed_ratio_limit_valid: input.qbittorrent_seed_ratio_limit_valid,
        qbittorrent_seed_time_limit_minutes: input.qbittorrent_seed_time_limit_minutes,
        aria2_enable_dht: input.aria2_enable_dht,
        aria2_enable_dht6: input.aria2_enable_dht6,
        aria2_enable_peer_exchange: input.aria2_enable_peer_exchange,
        aria2_enable_lpd: input.aria2_enable_lpd,
        aria2_bt_listen_port: input.aria2_bt_listen_port,
        aria2_bt_max_peers: input.aria2_bt_max_peers,
        aria2_max_connection_per_server: input.aria2_max_connection_per_server,
        aria2_split: input.aria2_split,
        aria2_min_split_size: string_of(&min_split),
        aria2_file_allocation: string_of(&allocation),
        aria2_seed_time: input.aria2_seed_time,
        aria2_seed_ratio_valid: input.aria2_seed_ratio_valid,
        priority: input.priority,
    })
}


// ---------------------------------------------------------------------
// Tracker subscriptions and engine settings
// ---------------------------------------------------------------------
/// Why a tracker subscription cannot be updated.
#[derive(Debug, Clone, Copy, PartialEq, Eq, Structural)]
pub enum TrackerSubscriptionError {
    NotAria2,
    NoUrl,
    NoTrackers,
}

impl TrackerSubscriptionError {
    pub fn message(&self) -> (r: &'static str)
        ensures
            r@ == (match self {
                TrackerSubscriptionError::NotAria2 => "tracker subscription is only supported for aria2"@,
                TrackerSubscriptionError::NoUrl => "tracker subscription url is required"@,
                TrackerSubscriptionError::NoTrackers => "tracker subscription returned no trackers"@,
            }),
    {
        match self {
            TrackerSubscriptionError::NotAria2 => "tracker subscription is only supported for aria2",
            TrackerSubscriptionError::NoUrl => "tracker subscription url is required",
            TrackerSubscriptionError::NoTrackers => "tracker subscription returned no trackers",
        }
    }
}

/// The addresses to fetch trackers from: only aria2 subscribes, and at
/// least one address is needed.
pub fn tracker_subscription_urls(engine: EngineKind, value: &str) -> (r: Result<Vec<String>, TrackerSubscriptionError>)
    ensures
        engine != EngineKind::Aria2 ==> r == Err::<Vec<String>, _>(TrackerSubscriptionError::NotAria2),
        engine == EngineKind::Aria2 && spec_subscription_urls(value@).len() == 0 ==> r == Err::<
            Vec<String>,
            _,
        >(TrackerSubscriptionError::NoUrl),
        engine == EngineKind::Aria2 && spec_subscription_urls(value@).len() > 0 ==> (r matches Ok(u)
            && u@.map_values(|s: String| s@) == spec_subscription_urls(value@)),
{
    if engine != EngineKind::Aria2 {
        return Err(TrackerSubscriptionError::NotAria2);
    }
    let urls = parse_tracker_subscription_urls(value);
    if urls.len() == 0 {
        return Err(TrackerSubscriptionError::NoUrl);
    }
    Ok(urls)
}

/// The pieces of all fetched tracker lists, in order.
pub open spec fn all_pieces(bodies: Seq<Seq<char>>) -> Seq<Seq<char>>
    decreases bodies.len(),
{
    if bodies.len() == 0 {
        Seq::empty()
    } else {
        all_pieces(bodies.drop_last()) + tracker_pieces(bodies.last())
    }
}

/// The trackers of the fetched lists together, each once; none is an
/// error.
pub fn merge_tracker_lists(bodies: &[String]) -> (r: Result<Vec<String>, TrackerSubscriptionError>)
    ensures
        match r {
            Ok(t) => t@.map_values(|s: String| s@) == normalized_trackers(
                all_pieces(bodies@.map_values(|b: String| b@)),
            ) && t@.len() > 0,
            Err(e) => e == TrackerSubscriptionError::NoTrackers && normalized_trackers(
                all_pieces(bodies@.map_values(|b: String| b@)),
            ).len() == 0,
        },
{
    let ghost bv = bodies@.map_values(|b: String| b@);
    let mut all: Vec<String> = Vec::new();
    let mut i: usize = 0;
    proof {
        assert(bv.take(0) =~= Seq::<Seq<char>>::empty());
        assert(all@.map_values(|s: String| s@) =~= Seq::<Seq<char>>::empty());
    }
    while i < bodies.len()
        invariant
            i <= bodies@.len(),
            bv == bodies@.map_values(|b: String| b@),
            all@.map_values(|s: String| s@) == all_pieces(bv.take(i as int)),
        decreases bodies.len() - i,
    {
        let mut pieces = parse_trackers(bodies[i].as_str());
        let ghost before = all@;
        let ghost added = pieces@;
        all.append(&mut pieces);
        proof {
            assert(bv.take(i + 1).drop_last() =~= bv.take(i as int));
            assert(bv.take(i + 1).last() == bodies@[i as int]@);
            assert(all@ =~= before + added);
            assert(all@.map_values(|s: String| s@) =~= before.map_values(|s: String| s@) + added.map_values(
                |s: String| s@,
            ));
        }
        i = i + 1;
    }
    proof {
        assert(bv.take(bodies@.len() as int) =~= bv);
    }
    let trackers = normalize_trackers(all);
    if trackers.len() == 0 {
        return Err(TrackerSubscriptionError::NoTrackers);
    }
    Ok(trackers)
}

/// The subscription as it is stored: its addresses, one a line.
pub fn subscription_text(urls: &[String]) -> (r: String)
    ensures
        r@ == crate::text::join_with(urls@.map_values(|s: String| s@), seq!['\n']),
{
    let mut parts: Vec<Vec<char>> = Vec::new();
    let mut i: usize = 0;
    while i < urls.len()
        invariant
            i <= urls@.len(),
            views(parts@) == urls@.take(i as int).map_values(|s: String| s@),
        decreases urls.len() - i,
    {
        let c = chars_of(urls[i].as_str());
        let ghost before = parts@;
        parts.push(c);
        proof {
            assert(views(parts@) =~= views(before).push(c@));
            assert(urls@.take(i + 1).map_values(|s: String| s@) =~= urls@.take(i as int).map_values(
                |s: String| s@,
            ).push(urls@[i as int]@));
        }
        i = i + 1;
    }
    proof {
        assert(urls@.take(urls@.len() as int) =~= urls@);
    }
    let nl = vec!['\n'];
    proof {
        assert(nl@ =~= seq!['\n']);
    }
    string_of(&crate::text::join_chars(&parts, &nl))
}

/// An engine kind takes a source type where it lists it.
pub fn validate_source_type(engine: EngineKind, source_type: SourceType) -> (r: Result<(), String>)
    ensures
        supports(engine, source_type) ==> r is Ok,
        !supports(engine, source_type) ==> (r matches Err(m) && m@ == engine.db_name()
            + " does not support "@ + source_type.db_name() + " tasks"@),
{
    if crate::models::engine_supports_source_type(engine, source_type) {
        Ok(())
    } else {
        let mut m = chars_of(engine.as_db());
        extend_vec(&mut m, &chars_of(" does not support "));
        extend_vec(&mut m, &chars_of(source_type.as_db()));
        extend_vec(&mut m, &chars_of(" tasks"));
        Err(string_of(&m))
    }
}

/// Engine settings that tasks use cannot be deleted.
pub fn check_engine_settings_unused(name: &str, has_download_tasks: bool) -> (r: Result<(), String>)
    ensures
        !has_download_tasks ==> r is Ok,
        has_download_tasks ==> (r matches Err(m) && m@ == name@ + " is used by download tasks"@),
{
    if has_download_tasks {
        let mut m = chars_of(name);
        extend_vec(&mut m, &chars_of(" is used by download tasks"));
        Err(string_of(&m))
    } else {
        Ok(())
    }
}

/// The files that make way for a download that overwrites an existing
/// one: the file, its partial download and aria2's control file.
pub fn conflict_cleanup_paths(path: &str) -> (r: Vec<String>)
    ensures
        r@.map_values(|p: String| p@) == seq![path@, path@ + ".part"@, path@ + ".aria2"@],
{
    let mut part = chars_of(path);
    extend_vec(&mut part, &chars_of(".part"));
    let mut control = chars_of(path);
    extend_vec(&mut control, &chars_of(".aria2"));
    let r = vec![string_of(&chars_of(path)), string_of(&part), string_of(&control)];
    proof {
        assert(r@.map_values(|p: String| p@) =~= seq![path@, path@ + ".part"@, path@ + ".aria2"@]);
    }
    r
}

/// The leftovers of an unfinished download next to its entry: the partial
/// download, and for aria2 its control file.
pub fn partial_entry_paths(engine: EngineKind, path: &str) -> (r: Vec<String>)
    ensures
        engine == EngineKind::Aria2 ==> r@.map_values(|p: String| p@) == seq![path@ + ".part"@, path@ + ".aria2"@],
        engine != EngineKind::Aria2 ==> r@.map_values(|p: String| p@) == seq![path@ + ".part"@],
{
    let mut part = chars_of(path);
    extend_vec(&mut part, &chars_of(".part"));
    let mut r = vec![string_of(&part)];
    if engine == EngineKind::Aria2 {
        let mut control = chars_of(path);
        extend_vec(&mut control, &chars_of(".aria2"));
        r.push(string_of(&control));
        proof {
            assert(r@.map_values(|p: String| p@) =~= seq![path@ + ".part"@, path@ + ".aria2"@]);
        }
    } else {
        proof {
            assert(r@.map_values(|p: String| p@) =~= seq![path@ + ".part"@]);
        }
    }
    r
}

/// Whether a new task is checked for a file it would overwrite: only
/// single-file downloads of the local engines.
pub fn checks_local_conflict(engine: EngineKind, source_type: SourceType) -> (r: bool)
    ensures
        r == (engine != EngineKind::QBittorrent && (source_type == SourceType::Http || source_type
            == SourceType::Ftp)),
{
    engine != EngineKind::QBittorrent && (source_type == SourceType::Http || source_type == SourceType::Ftp)
}

/// Whether a file in the save path is the finished yt-dlp download of a
/// name without extension: `<name>.<anything>`, but not a `.part` file.
pub fn is_ytdlp_entry_for(file_name: &str, candidate: &str) -> (r: bool)
    ensures
        r == (starts_with(candidate@, file_name@ + "."@) && !ends_with(candidate@, ".part"@)),
{
    let mut prefix = chars_of(file_name);
    prefix.push('.');
    let c = chars_of(candidate);
    proof {
        reveal_strlit(".");
        assert(prefix@ =~= file_name@ + "."@);
    }
    has_prefix(&c, &prefix) && !has_suffix(&c, &chars_of(".part"))
}

/// Auto rename picks a new name only for single-file downloads.
pub fn check_auto_rename(source_type: SourceType) -> (r: Result<(), &'static str>)
    ensures
        (source_type == SourceType::Http || source_type == SourceType::Ftp) ==> r is Ok,
        !(source_type == SourceType::Http || source_type == SourceType::Ftp) ==> (r matches Err(m)
            && m@ == "auto rename is only available for single-file downloads"@),
{
    if source_type == SourceType::Http || source_type == SourceType::Ftp {
        Ok(())
    } else {
        Err("auto rename is only available for single-file downloads")
    }
}

/// Whether an HTTP source's final address and size are looked up, and
/// under which key they are kept: only an HTTP source that holds more than
/// whitespace, by its trimmed text.
pub fn identity_lookup_key(source_type: SourceType, source: &str) -> (r: Option<String>)
    ensures
        source_type != SourceType::Http ==> r is None,
        source_type == SourceType::Http && trim(source@).len() == 0 ==> r is None,
        source_type == SourceType::Http && trim(source@).len() > 0 ==> (r matches Some(k) && k@ == trim(source@)),
{
    if source_type != SourceType::Http {
        return None;
    }
    let t = trim_str(source);
    if t.len() == 0 {
        None
    } else {
        Some(string_of(&t))
    }
}

/// The size that an HTTP answer announces: its `Content-Length` where it
/// is a positive number.
pub fn content_length_bytes(value: Option<&str>) -> (r: Option<i64>)
    ensures
        r == (match value {
            Some(v) => match crate::text::parse_i64_spec(v@) {
                Some(n) => if n > 0 {
                    Some(n)
                } else {
                    None
                },
                None => None,
            },
            None => None,
        }),
{
    match value {
        Some(v) => match crate::text::parse_i64(&chars_of(v)) {
            Some(n) => if n > 0 {
                Some(n)
            } else {
                None
            },
            None => None,
        },
        None => None,
    }
}

/// The torrent info hash of a new task: from a magnet link's `xt`, from a
/// torrent file's bytes, none for HTTP and FTP.
pub fn input_torrent_info_hash(source_type: SourceType, source: &str, torrent_bytes: &[u8]) -> (r: Result<
    Option<String>,
    crate::torrent::TorrentError,
>)
    ensures
        source_type == SourceType::Magnet ==> (match r {
            Ok(Some(h)) => crate::magnet::spec_magnet_info_hash(source@) == Some(h@),
            Ok(None) => crate::magnet::spec_magnet_info_hash(source@) is None,
            Err(_) => false,
        }),
        source_type == SourceType::Torrent ==> (match r {
            Ok(Some(h)) => crate::torrent::spec_torrent_info_hash(torrent_bytes@) == Ok::<
                _,
                crate::torrent::TorrentErrorView,
            >(h@),
            Ok(None) => false,
            Err(e) => crate::torrent::spec_torrent_info_hash(torrent_bytes@) == Err::<Seq<char>, _>(e@),
        }),
        (source_type == SourceType::Http || source_type == SourceType::Ftp) ==> (r matches Ok(None)),
{
    match source_type {
        SourceType::Magnet => Ok(crate::magnet::parse_magnet_info_hash(source)),
        SourceType::Torrent => match crate::torrent::torrent_info_hash(torrent_bytes) {
            Ok(h) => Ok(Some(h)),
            Err(e) => Err(e),
        },
        _ => Ok(None),
    }
}

/// Whether a completed yt-dlp download is looked for under other names:
/// where the file of its recorded name is not there.
pub fn looks_up_ytdlp_entry(file_exists: bool, engine: EngineKind, status: DownloadStatus) -> (r: bool)
    ensures
        r == (!file_exists && engine == EngineKind::YtDlp && status == DownloadStatus::Completed),
{
    !(file_exists || engine != EngineKind::YtDlp || status != DownloadStatus::Completed)
}

} // verus!
