//! What the engine adapters share: which engine serves which request, the
//! settings they read, how a command line is shown in the log, and the
//! info hash in a magnet link.
use crate::models::{DownloadStatus, EngineKind};
use crate::text::{
    chars_of, extend_vec, has_prefix, is_whitespace, is_ws, lower_seq, parse_i64, parse_i64_spec,
    slice_vec, split_chars, split_seq, starts_with, string_of, to_ascii_lowercase, trim,
    trim_start, trim_start_chars, trim_str, views,
};
use vstd::prelude::*;

verus! {

/// A task's progress as an engine state sets it. The percentage is a float
/// that the caller computes: none, all, the task's own, the completed share
/// of the bytes, or the fraction that the engine itself reported.
#[derive(Debug, Clone, Copy, PartialEq, Eq, Structural)]
pub enum ProgressValue {
    Zero,
    Full,
    Kept,
    OfBytes { completed: i64, total: i64 },
    Reported,
}

/// What an engine says of a task.
pub struct EngineTaskState {
    pub status: DownloadStatus,
    pub progress: ProgressValue,
    pub speed_bytes_per_sec: i64,
    pub downloaded_bytes: i64,
    pub total_bytes: i64,
    pub engine_task_id: Option<String>,
    pub file_name: Option<String>,
    pub error_message: Option<String>,
}

/// What an engine state keeps of a task that its engine did not report on.
pub struct TaskSnapshot {
    pub downloaded_bytes: i64,
    pub total_bytes: i64,
    pub engine_task_id: Option<String>,
}

pub open spec fn opt_view(v: Option<String>) -> Option<Seq<char>> {
    match v {
        Some(s) => Some(s@),
        None => None,
    }
}

pub fn copy_opt(v: &Option<String>) -> (r: Option<String>)
    ensures
        opt_view(r) == opt_view(*v),
{
    match v {
        Some(s) => Some(string_of(&chars_of(s.as_str()))),
        None => None,
    }
}

impl EngineTaskState {
    /// A task that its engine has just taken on under the given id.
    pub fn running(engine_task_id: String) -> (r: Self)
        ensures
            r.status == DownloadStatus::Running,
            r.progress == ProgressValue::Zero,
            r.speed_bytes_per_sec == 0 && r.downloaded_bytes == 0 && r.total_bytes == 0,
            r.engine_task_id == Some(engine_task_id),
            r.file_name is None && r.error_message is None,
    {
        EngineTaskState {
            status: DownloadStatus::Running,
            progress: ProgressValue::Zero,
            speed_bytes_per_sec: 0,
            downloaded_bytes: 0,
            total_bytes: 0,
            engine_task_id: Some(engine_task_id),
            file_name: None,
            error_message: None,
        }
    }

    /// A task in a new status that keeps its progress, bytes and engine id,
    /// at no speed.
    pub fn held(status: DownloadStatus, task: &TaskSnapshot, error_message: Option<String>) -> (r: Self)
        ensures
            r.status == status,
            r.progress == ProgressValue::Kept,
            r.speed_bytes_per_sec == 0,
            r.downloaded_bytes == task.downloaded_bytes && r.total_bytes == task.total_bytes,
            opt_view(r.engine_task_id) == opt_view(task.engine_task_id),
            r.file_name is None,
            r.error_message == error_message,
    {
        EngineTaskState {
            status,
            progress: ProgressValue::Kept,
            speed_bytes_per_sec: 0,
            downloaded_bytes: task.downloaded_bytes,
            total_bytes: task.total_bytes,
            engine_task_id: copy_opt(&task.engine_task_id),
            file_name: None,
            error_message,
        }
    }
}

/// A file of a download as an engine lists it.
#[derive(Debug, PartialEq, Eq)]
pub struct EngineFileEntry {
    pub index: i64,
    pub path: String,
    pub length: i64,
    pub completed_length: i64,
}

/// The name and files that an engine learns from a magnet link.
pub struct MagnetMetadata {
    pub name: Option<String>,
    pub files: Option<Vec<EngineFileEntry>>,
}

/// A request that only some engines serve.
#[derive(Debug, Clone, Copy, PartialEq, Eq, Structural)]
pub enum EngineRequest {
    MagnetMetadata,
    TorrentFiles,
    FileSelection,
    RemoteDirectories,
    TestConnection,
}

/// Why an engine does not serve a request.
pub open spec fn spec_unsupported(engine: EngineKind, request: EngineRequest) -> Option<Seq<char>> {
    match (engine, request) {
        (EngineKind::YtDlp, EngineRequest::MagnetMetadata) => Some("yt-dlp does not support magnet metadata"@),
        (EngineKind::YtDlp, EngineRequest::TorrentFiles) => Some("yt-dlp does not support torrent files"@),
        (EngineKind::YtDlp, EngineRequest::FileSelection) => Some(
            "yt-dlp does not support torrent file selection"@,
        ),
        (EngineKind::YtDlp, EngineRequest::TestConnection) => Some("yt-dlp does not use a remote connection"@),
        (EngineKind::Aria2, EngineRequest::RemoteDirectories) => Some(
            "Aria2 does not support remote directory browsing"@,
        ),
        (EngineKind::YtDlp, EngineRequest::RemoteDirectories) => Some(
            "YtDlp does not support remote directory browsing"@,
        ),
        _ => None,
    }
}

pub fn unsupported_request(engine: EngineKind, request: EngineRequest) -> (r: Option<&'static str>)
    ensures
        match r {
            Some(m) => spec_unsupported(engine, request) == Some(m@),
            None => spec_unsupported(engine, request) is None,
        },
{
    match (engine, request) {
        (EngineKind::YtDlp, EngineRequest::MagnetMetadata) => Some("yt-dlp does not support magnet metadata"),
        (EngineKind::YtDlp, EngineRequest::TorrentFiles) => Some("yt-dlp does not support torrent files"),
        (EngineKind::YtDlp, EngineRequest::FileSelection) => Some(
            "yt-dlp does not support torrent file selection",
        ),
        (EngineKind::YtDlp, EngineRequest::TestConnection) => Some("yt-dlp does not use a remote connection"),
        (EngineKind::Aria2, EngineRequest::RemoteDirectories) => Some(
            "Aria2 does not support remote directory browsing",
        ),
        (EngineKind::YtDlp, EngineRequest::RemoteDirectories) => Some(
            "YtDlp does not support remote directory browsing",
        ),
        _ => None,
    }
}

/// Why a magnet request is refused before any engine is asked.
#[derive(Debug, Clone, Copy, PartialEq, Eq, Structural)]
pub enum MagnetRequestError {
    NotMagnet,
    NoSavePath,
}

impl MagnetRequestError {
    pub fn message(&self) -> (r: &'static str)
        ensures
            r@ == (match self {
                MagnetRequestError::NotMagnet => "source must be a magnet link"@,
                MagnetRequestError::NoSavePath => "save path is required"@,
            }),
    {
        match self {
            MagnetRequestError::NotMagnet => "source must be a magnet link",
            MagnetRequestError::NoSavePath => "save path is required",
        }
    }
}

/// A magnet request needs a source that, after leading whitespace, starts
/// with `magnet:` in any ASCII case, and a save path that holds more than
/// whitespace.
pub open spec fn spec_check_magnet_request(source: Seq<char>, save_path: Seq<char>) -> Result<(), MagnetRequestError> {
    if !starts_with(lower_seq(trim_start(source)), "magnet:"@) {
        Err(MagnetRequestError::NotMagnet)
    } else if trim(save_path).len() == 0 {
        Err(MagnetRequestError::NoSavePath)
    } else {
        Ok(())
    }
}

pub fn check_magnet_request(source: &str, save_path: &str) -> (r: Result<(), MagnetRequestError>)
    ensures
        r == spec_check_magnet_request(source@, save_path@),
{
    let lowered = to_ascii_lowercase(&trim_start_chars(&chars_of(source)));
    if !has_prefix(&lowered, &chars_of("magnet:")) {
        return Err(MagnetRequestError::NotMagnet);
    }
    if trim_str(save_path).len() == 0 {
        return Err(MagnetRequestError::NoSavePath);
    }
    Ok(())
}

/// The engine's id of a task, which the engine calls need.
pub fn required_engine_task_id(task_id: &str, engine_task_id: Option<&str>) -> (r: Result<String, String>)
    ensures
        match engine_task_id {
            Some(e) => r matches Ok(v) && v@ == e@,
            None => r matches Err(m) && m@ == "task "@ + task_id@ + " has no engine task id"@,
        },
{
    match engine_task_id {
        Some(e) => Ok(string_of(&chars_of(e))),
        None => {
            let mut m = chars_of("task ");
            extend_vec(&mut m, &chars_of(task_id));
            extend_vec(&mut m, &chars_of(" has no engine task id"));
            Err(string_of(&m))
        },
    }
}

/// A setting's text trimmed, where that leaves anything: the user agent and
/// the proxy that the engines are given.
pub open spec fn spec_setting_text(v: Option<Seq<char>>) -> Option<Seq<char>> {
    match v {
        Some(s) => if trim(s).len() > 0 {
            Some(trim(s))
        } else {
            None
        },
        None => None,
    }
}

pub fn engine_user_agent(user_agent: Option<&str>) -> (r: Option<String>)
    ensures
        match r {
            Some(u) => spec_setting_text(
                match user_agent {
                    Some(s) => Some(s@),
                    None => None,
                },
            ) == Some(u@),
            None => spec_setting_text(
                match user_agent {
                    Some(s) => Some(s@),
                    None => None,
                },
            ) is None,
        },
{
    match user_agent {
        Some(s) => {
            let t = trim_str(s);
            if t.len() > 0 {
                Some(string_of(&t))
            } else {
                None
            }
        },
        None => None,
    }
}

/// The speed limit, where one is set (a positive number of bytes a second).
pub fn engine_speed_limit_bytes_per_sec(speed_limit_bytes_per_sec: i64) -> (r: Option<i64>)
    ensures
        speed_limit_bytes_per_sec > 0 ==> r == Some(speed_limit_bytes_per_sec),
        speed_limit_bytes_per_sec <= 0 ==> r is None,
{
    if speed_limit_bytes_per_sec > 0 {
        Some(speed_limit_bytes_per_sec)
    } else {
        None
    }
}

/// A JSON number or numeric text read as an integer: the number where it is
/// one, else the text parsed.
pub fn json_i64(number: Option<i64>, text: Option<&str>) -> (r: Option<i64>)
    ensures
        r == (match number {
            Some(n) => Some(n),
            None => match text {
                Some(t) => parse_i64_spec(t@),
                None => None,
            },
        }),
{
    match number {
        Some(n) => Some(n),
        None => match text {
            Some(t) => parse_i64(&chars_of(t)),
            None => None,
        },
    }
}

// ---------------------------------------------------------------------
// Command lines in the log
// ---------------------------------------------------------------------
/// The characters that make an argument need quotes.
pub open spec fn needs_quotes_char(c: char) -> bool {
    is_ws(c) || c == '"' || c == '&' || c == '|' || c == '<' || c == '>' || c == '^'
}

/// Every `"` preceded by a backslash.
pub open spec fn escape_quotes(s: Seq<char>) -> Seq<char>
    decreases s.len(),
{
    if s.len() == 0 {
        s
    } else {
        let rest = escape_quotes(s.drop_last());
        if s.last() == '"' {
            rest + seq!['\\', '"']
        } else {
            rest.push(s.last())
        }
    }
}

/// An argument as a shell would read it: in double quotes, with its quotes
/// escaped, where it is empty or holds whitespace or one of `"&|<>^`.
pub open spec fn spec_shell_quote(s: Seq<char>) -> Seq<char> {
    if s.len() == 0 || exists|i: int| 0 <= i < s.len() && needs_quotes_char(s[i]) {
        seq!['"'] + escape_quotes(s) + seq!['"']
    } else {
        s
    }
}

pub fn shell_quote(value: &str) -> (r: String)
    ensures
        r@ == spec_shell_quote(value@),
{
    let v = chars_of(value);
    let mut needs = v.len() == 0;
    let mut escaped: Vec<char> = Vec::new();
    let mut i: usize = 0;
    proof {
        assert(v@.take(0) =~= Seq::<char>::empty());
    }
    while i < v.len()
        invariant
            i <= v@.len(),
            v@ == value@,
            escaped@ == escape_quotes(v@.take(i as int)),
            needs == (v@.len() == 0 || exists|j: int| 0 <= j < i && needs_quotes_char(v@[j])),
        decreases v.len() - i,
    {
        let c = v[i];
        if is_whitespace(c) || c == '"' || c == '&' || c == '|' || c == '<' || c == '>' || c == '^' {
            needs = true;
        }
        if c == '"' {
            escaped.push('\\');
            escaped.push('"');
        } else {
            escaped.push(c);
        }
        proof {
            assert(v@.take(i + 1).drop_last() =~= v@.take(i as int));
        }
        i = i + 1;
    }
    proof {
        assert(v@.take(v@.len() as int) =~= v@);
    }
    if needs {
        let mut out = vec!['"'];
        extend_vec(&mut out, &escaped);
        out.push('"');
        proof {
            assert(out@ =~= seq!['"'] + escaped@ + seq!['"']);
        }
        string_of(&out)
    } else {
        string_of(&v)
    }
}

/// A command as it is logged: the program and its arguments, each quoted
/// as needed, joined by spaces.
pub open spec fn spec_command_line(program: Seq<char>, args: Seq<Seq<char>>) -> Seq<char>
    decreases args.len(),
{
    if args.len() == 0 {
        spec_shell_quote(program)
    } else {
        spec_command_line(program, args.drop_last()) + seq![' '] + spec_shell_quote(args.last())
    }
}

pub fn command_line(program: &str, args: &[String]) -> (r: String)
    ensures
        r@ == spec_command_line(program@, args@.map_values(|a: String| a@)),
{
    let ghost av = args@.map_values(|a: String| a@);
    let first = shell_quote(program);
    let mut out = chars_of(first.as_str());
    let mut i: usize = 0;
    proof {
        assert(av.take(0) =~= Seq::<Seq<char>>::empty());
    }
    while i < args.len()
        invariant
            i <= args@.len(),
            av == args@.map_values(|a: String| a@),
            out@ == spec_command_line(program@, av.take(i as int)),
        decreases args.len() - i,
    {
        out.push(' ');
        let q = shell_quote(args[i].as_str());
        extend_vec(&mut out, &chars_of(q.as_str()));
        proof {
            assert(av.take(i + 1).drop_last() =~= av.take(i as int));
            assert(av.take(i + 1).last() == args@[i as int]@);
        }
        i = i + 1;
    }
    proof {
        assert(av.take(args@.len() as int) =~= av);
    }
    string_of(&out)
}

// ---------------------------------------------------------------------
// The hash in a magnet link
// ---------------------------------------------------------------------
/// What follows `magnet:?xt=urn:btih:` or `xt=urn:btih:` at the start of a
/// part.
pub open spec fn hash_in_part(part: Seq<char>) -> Option<Seq<char>> {
    if starts_with(part, "magnet:?xt=urn:btih:"@) {
        Some(part.skip("magnet:?xt=urn:btih:"@.len() as int))
    } else if starts_with(part, "xt=urn:btih:"@) {
        Some(part.skip("xt=urn:btih:"@.len() as int))
    } else {
        None
    }
}

/// The hash in the first `&`-separated part that carries one, from part `i`
/// on.
pub open spec fn hash_from(parts: Seq<Seq<char>>, i: int) -> Option<Seq<char>>
    decreases parts.len() - i,
{
    if i < 0 || i >= parts.len() {
        None
    } else {
        match hash_in_part(parts[i]) {
            Some(h) => Some(h),
            None => hash_from(parts, i + 1),
        }
    }
}

/// The BitTorrent hash that a magnet link carries, in ASCII lowercase.
pub open spec fn spec_magnet_hash(source: Seq<char>) -> Option<Seq<char>> {
    match hash_from(split_seq(source, false, seq!['&']), 0) {
        Some(h) => Some(lower_seq(h)),
        None => None,
    }
}

pub fn parse_magnet_hash(source: &str) -> (r: Option<String>)
    ensures
        match r {
            Some(h) => spec_magnet_hash(source@) == Some(h@),
            None => spec_magnet_hash(source@) is None,
        },
{
    let amp = vec!['&'];
    let parts = split_chars(&chars_of(source), false, &amp);
    let ghost ps = views(parts@);
    proof {
        assert(amp@ =~= seq!['&']);
    }
    let long = chars_of("magnet:?xt=urn:btih:");
    let short = chars_of("xt=urn:btih:");
    let mut i: usize = 0;
    while i < parts.len()
        invariant
            i <= parts@.len(),
            ps == views(parts@),
            ps == split_seq(source@, false, seq!['&']),
            long@ == "magnet:?xt=urn:btih:"@,
            short@ == "xt=urn:btih:"@,
            hash_from(ps, 0) == hash_from(ps, i as int),
        decreases parts.len() - i,
    {
        let part = &parts[i];
        proof {
            assert(ps[i as int] == part@);
        }
        if has_prefix(part, &long) {
            let h = slice_vec(part, long.len(), part.len());
            proof {
                assert(h@ =~= part@.skip("magnet:?xt=urn:btih:"@.len() as int));
            }
            return Some(string_of(&to_ascii_lowercase(&h)));
        }
        if has_prefix(part, &short) {
            let h = slice_vec(part, short.len(), part.len());
            proof {
                assert(h@ =~= part@.skip("xt=urn:btih:"@.len() as int));
            }
            return Some(string_of(&to_ascii_lowercase(&h)));
        }
        i = i + 1;
    }
    None
}

} // verus!
